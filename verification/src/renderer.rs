//! Lays a [`Doc`] out into text within a target width.
use vstd::prelude::*;

use crate::document::{Doc, DocV, LineKind, doc_view, docs_view, lemma_docs_view};

verus! {

broadcast use vstd::std_specs::vec::group_vec_axioms;

/// Layout options of the renderer.
#[derive(Debug, Clone, Copy)]
pub struct FormatOptions {
    /// The target line width, in characters.
    pub max_width: usize,
    /// The width of one indentation level, in spaces.
    pub indent_width: usize,
}

impl Default for FormatOptions {
    fn default() -> (result: Self)
        ensures
            result.max_width == 100,
            result.indent_width == 4,
    {
        FormatOptions { max_width: 100, indent_width: 4 }
    }
}

/// Whether a group is laid out on one line or broken across lines.
#[derive(Debug, Clone, Copy, PartialEq, Eq, Structural)]
pub enum Mode {
    Flat,
    Broken,
}

/// A document waiting to be laid out, with its indentation and mode.
#[derive(Debug, Clone, Copy)]
pub struct Command<'a> {
    pub indent: usize,
    pub mode: Mode,
    pub doc: &'a Doc,
}

/// The value of a command: indentation, mode and document.
pub type Cmd = (nat, Mode, DocV);

pub open spec fn cmd_of(command: Command) -> Cmd {
    (command.indent as nat, command.mode, command.doc@)
}

pub open spec fn cmds_of(commands: Seq<Command>) -> Seq<Cmd> {
    commands.map_values(|command: Command| cmd_of(command))
}

// ---------------------------------------------------------------------------
// Measures of documents.

/// The number of nodes of a document.
pub open spec fn doc_size(doc: DocV) -> nat
    decreases doc,
{
    match doc {
        DocV::Concat(children) => 1 + docs_size(children),
        DocV::Indent(inner) => 1 + doc_size(*inner),
        DocV::Outdent(inner) => 1 + doc_size(*inner),
        DocV::Group(inner) => 1 + doc_size(*inner),
        DocV::Fill { flat, broken, .. } => 1 + doc_size(*flat) + doc_size(*broken),
        DocV::IfBreak { broken, flat } => 1 + doc_size(*broken) + doc_size(*flat),
        _ => 1,
    }
}

pub open spec fn docs_size(docs: Seq<DocV>) -> nat
    decreases docs,
{
    if docs.len() == 0 {
        0
    } else {
        docs_size(docs.drop_last()) + doc_size(docs.last())
    }
}

/// An upper bound on the columns that laying a document out can advance:
/// its text, plus one for each line and each fill boundary.
pub open spec fn doc_width(doc: DocV) -> nat
    decreases doc,
{
    match doc {
        DocV::Nil => 0,
        DocV::Text(text) => text.len(),
        DocV::Line(_) => 1,
        DocV::Concat(children) => docs_width(children),
        DocV::Indent(inner) => doc_width(*inner),
        DocV::Outdent(inner) => doc_width(*inner),
        DocV::Group(inner) => doc_width(*inner),
        DocV::Fill { flat, broken, .. } => 1 + doc_width(*flat) + doc_width(*broken),
        DocV::IfBreak { broken, flat } => doc_width(*broken) + doc_width(*flat),
    }
}

pub open spec fn docs_width(docs: Seq<DocV>) -> nat
    decreases docs,
{
    if docs.len() == 0 {
        0
    } else {
        docs_width(docs.drop_last()) + doc_width(docs.last())
    }
}

pub open spec fn max_nat(a: nat, b: nat) -> nat {
    if a >= b {
        a
    } else {
        b
    }
}

/// The deepest indentation, beyond the current one, that laying a document
/// out can reach.
pub open spec fn doc_gain(doc: DocV, indent_width: nat) -> nat
    decreases doc,
{
    match doc {
        DocV::Concat(children) => docs_gain(children, indent_width),
        DocV::Indent(inner) => indent_width + doc_gain(*inner, indent_width),
        DocV::Outdent(inner) => doc_gain(*inner, indent_width),
        DocV::Group(inner) => doc_gain(*inner, indent_width),
        DocV::Fill { flat, broken, indent_levels_on_break, .. } => max_nat(
            doc_gain(*flat, indent_width),
            indent_levels_on_break * indent_width + doc_gain(*broken, indent_width),
        ),
        DocV::IfBreak { broken, flat } => max_nat(
            doc_gain(*broken, indent_width),
            doc_gain(*flat, indent_width),
        ),
        _ => 0,
    }
}

pub open spec fn docs_gain(docs: Seq<DocV>, indent_width: nat) -> nat
    decreases docs,
{
    if docs.len() == 0 {
        0
    } else {
        max_nat(docs_gain(docs.drop_last(), indent_width), doc_gain(docs.last(), indent_width))
    }
}

/// Whether laying `doc` out with `options` keeps every column and every
/// indentation within `usize`.
pub open spec fn fits_machine(doc: DocV, options: FormatOptions) -> bool {
    doc_gain(doc, options.indent_width as nat) + doc_width(doc) <= usize::MAX
}

pub open spec fn stack_size(cmds: Seq<Cmd>) -> nat
    decreases cmds.len(),
{
    if cmds.len() == 0 {
        0
    } else {
        stack_size(cmds.drop_last()) + doc_size(cmds.last().2)
    }
}

pub open spec fn stack_width(cmds: Seq<Cmd>) -> nat
    decreases cmds.len(),
{
    if cmds.len() == 0 {
        0
    } else {
        stack_width(cmds.drop_last()) + doc_width(cmds.last().2)
    }
}

pub open spec fn stack_indents_within(cmds: Seq<Cmd>, indent_width: nat, bound: nat) -> bool {
    forall|i: int|
        0 <= i < cmds.len() ==> #[trigger] cmds[i].0 + doc_gain(cmds[i].2, indent_width) <= bound
}

/// The commands for `docs`, last document first, so that popping them yields
/// the documents in order.
pub open spec fn rev_cmds(docs: Seq<DocV>, indent: nat, mode: Mode) -> Seq<Cmd> {
    Seq::new(docs.len(), |i: int| (indent, mode, docs[docs.len() - 1 - i]))
}

pub proof fn lemma_stack_push(cmds: Seq<Cmd>, cmd: Cmd)
    ensures
        stack_size(cmds.push(cmd)) == stack_size(cmds) + doc_size(cmd.2),
        stack_width(cmds.push(cmd)) == stack_width(cmds) + doc_width(cmd.2),
{
    assert(cmds.push(cmd).drop_last() =~= cmds);
}

pub proof fn lemma_stack_append(a: Seq<Cmd>, b: Seq<Cmd>)
    ensures
        stack_size(a + b) == stack_size(a) + stack_size(b),
        stack_width(a + b) == stack_width(a) + stack_width(b),
    decreases b.len(),
{
    if b.len() == 0 {
        assert(a + b =~= a);
    } else {
        lemma_stack_append(a, b.drop_last());
        assert((a + b).drop_last() =~= a + b.drop_last());
    }
}

pub proof fn lemma_rev_cmds(docs: Seq<DocV>, indent: nat, mode: Mode, indent_width: nat)
    ensures
        stack_size(rev_cmds(docs, indent, mode)) == docs_size(docs),
        stack_width(rev_cmds(docs, indent, mode)) == docs_width(docs),
        forall|i: int|
            0 <= i < docs.len() ==> doc_gain(#[trigger] rev_cmds(docs, indent, mode)[i].2, indent_width)
                <= docs_gain(docs, indent_width),
    decreases docs.len(),
{
    if docs.len() > 0 {
        let rest = docs.drop_last();
        lemma_rev_cmds(rest, indent, mode, indent_width);
        assert(rev_cmds(docs, indent, mode) =~= seq![(indent, mode, docs.last())] + rev_cmds(
            rest,
            indent,
            mode,
        ));
        lemma_stack_append(seq![(indent, mode, docs.last())], rev_cmds(rest, indent, mode));
        assert(seq![(indent, mode, docs.last())] =~= Seq::<Cmd>::empty().push(
            (indent, mode, docs.last()),
        ));
        lemma_stack_push(Seq::<Cmd>::empty(), (indent, mode, docs.last()));
        assert forall|i: int| 0 <= i < docs.len() implies doc_gain(
            #[trigger] rev_cmds(docs, indent, mode)[i].2,
            indent_width,
        ) <= docs_gain(docs, indent_width) by {
            if i > 0 {
                assert(rev_cmds(docs, indent, mode)[i] == rev_cmds(rest, indent, mode)[i - 1]);
            }
        }
    }
}

// ---------------------------------------------------------------------------
// The layout, as a state machine over a stack of commands.

/// The number of line feeds at the end of `text`.
pub open spec fn trailing_newlines(text: Seq<char>) -> nat
    decreases text.len(),
{
    if text.len() > 0 && text.last() == '\n' {
        1 + trailing_newlines(text.drop_last())
    } else {
        0
    }
}

pub open spec fn spaces(count: nat) -> Seq<char> {
    Seq::new(count, |i: int| ' ')
}

pub open spec fn sat_sub(a: nat, b: nat) -> nat {
    if a >= b {
        (a - b) as nat
    } else {
        0
    }
}

/// The output after a hard or empty line break at `indent`.
pub open spec fn line_break(out: Seq<char>, kind: LineKind, indent: nat) -> Seq<char> {
    let first = out.push('\n');
    let second = if kind == LineKind::Empty && trailing_newlines(first) < 2 {
        first.push('\n')
    } else {
        first
    };
    second + spaces(indent)
}

pub open spec fn has_forced_line_spec(doc: DocV) -> bool
    decreases doc,
{
    match doc {
        DocV::Nil => false,
        DocV::Text(_) => false,
        DocV::Line(kind) => kind != LineKind::Soft,
        DocV::Concat(children) => docs_have_forced_line(children),
        DocV::Indent(inner) => has_forced_line_spec(*inner),
        DocV::Outdent(inner) => has_forced_line_spec(*inner),
        DocV::Group(inner) => has_forced_line_spec(*inner),
        DocV::Fill { flat, .. } => has_forced_line_spec(*flat),
        DocV::IfBreak { flat, .. } => has_forced_line_spec(*flat),
    }
}

pub open spec fn docs_have_forced_line(docs: Seq<DocV>) -> bool
    decreases docs,
{
    if docs.len() == 0 {
        false
    } else {
        docs_have_forced_line(docs.drop_last()) || has_forced_line_spec(docs.last())
    }
}

/// Whether the commands, laid out flat, reach the end of the line or of the
/// input without using more than `remaining` columns.
pub open spec fn fits_spec(remaining: nat, cmds: Seq<Cmd>) -> bool
    decreases stack_size(cmds),
{
    if cmds.len() == 0 {
        true
    } else {
        let indent = cmds.last().0;
        let mode = cmds.last().1;
        let rest = cmds.drop_last();
        proof {
            lemma_stack_push(rest, cmds.last());
            assert(rest.push(cmds.last()) =~= cmds);
        }
        match cmds.last().2 {
            DocV::Nil => fits_spec(remaining, rest),
            DocV::Text(text) => if text.len() > remaining {
                false
            } else {
                fits_spec((remaining - text.len()) as nat, rest)
            },
            DocV::Concat(children) => {
                proof {
                    lemma_rev_cmds(children, indent, mode, 0);
                    lemma_stack_append(rest, rev_cmds(children, indent, mode));
                }
                fits_spec(remaining, rest + rev_cmds(children, indent, mode))
            },
            DocV::Line(kind) => if kind == LineKind::Soft && mode == Mode::Flat {
                if remaining == 0 {
                    false
                } else {
                    fits_spec((remaining - 1) as nat, rest)
                }
            } else {
                true
            },
            DocV::Indent(inner) => {
                proof {
                    lemma_stack_push(rest, (indent, mode, *inner));
                }
                fits_spec(remaining, rest.push((indent, mode, *inner)))
            },
            DocV::Outdent(inner) => {
                proof {
                    lemma_stack_push(rest, (indent, mode, *inner));
                }
                fits_spec(remaining, rest.push((indent, mode, *inner)))
            },
            DocV::Group(inner) => {
                proof {
                    lemma_stack_push(rest, (indent, mode, *inner));
                }
                fits_spec(remaining, rest.push((indent, mode, *inner)))
            },
            DocV::Fill { flat, space_when_flat, .. } => {
                proof {
                    lemma_stack_push(rest, (indent, mode, *flat));
                }
                if space_when_flat {
                    if remaining == 0 {
                        false
                    } else {
                        fits_spec((remaining - 1) as nat, rest.push((indent, mode, *flat)))
                    }
                } else {
                    fits_spec(remaining, rest.push((indent, mode, *flat)))
                }
            },
            DocV::IfBreak { broken, flat } => {
                let chosen = if mode == Mode::Broken {
                    *broken
                } else {
                    *flat
                };
                proof {
                    lemma_stack_push(rest, (indent, mode, chosen));
                }
                fits_spec(remaining, rest.push((indent, mode, chosen)))
            },
        }
    }
}

/// Whether the commands, laid out broken, reach the first line break or the
/// end of the input without using more than `remaining` columns.
pub open spec fn fits_broken_prefix_spec(remaining: nat, cmds: Seq<Cmd>) -> bool
    decreases stack_size(cmds),
{
    if cmds.len() == 0 {
        true
    } else {
        let indent = cmds.last().0;
        let rest = cmds.drop_last();
        proof {
            lemma_stack_push(rest, cmds.last());
            assert(rest.push(cmds.last()) =~= cmds);
        }
        match cmds.last().2 {
            DocV::Nil => fits_broken_prefix_spec(remaining, rest),
            DocV::Text(text) => if text.len() > remaining {
                false
            } else {
                fits_broken_prefix_spec((remaining - text.len()) as nat, rest)
            },
            DocV::Concat(children) => {
                proof {
                    lemma_rev_cmds(children, indent, Mode::Broken, 0);
                    lemma_stack_append(rest, rev_cmds(children, indent, Mode::Broken));
                }
                fits_broken_prefix_spec(remaining, rest + rev_cmds(children, indent, Mode::Broken))
            },
            DocV::Line(_) => true,
            DocV::Indent(inner) => {
                proof {
                    lemma_stack_push(rest, (indent, Mode::Broken, *inner));
                }
                fits_broken_prefix_spec(remaining, rest.push((indent, Mode::Broken, *inner)))
            },
            DocV::Outdent(inner) => {
                proof {
                    lemma_stack_push(rest, (indent, Mode::Broken, *inner));
                }
                fits_broken_prefix_spec(remaining, rest.push((indent, Mode::Broken, *inner)))
            },
            DocV::Group(inner) => {
                proof {
                    lemma_stack_push(rest, (indent, Mode::Broken, *inner));
                }
                fits_broken_prefix_spec(remaining, rest.push((indent, Mode::Broken, *inner)))
            },
            DocV::Fill { .. } => true,
            DocV::IfBreak { broken, .. } => {
                proof {
                    lemma_stack_push(rest, (indent, Mode::Broken, *broken));
                }
                fits_broken_prefix_spec(remaining, rest.push((indent, Mode::Broken, *broken)))
            },
        }
    }
}

/// The text that laying out the commands appends to `out`, starting at
/// `column`, before the final normalization.
pub open spec fn layout_spec(
    max_width: nat,
    indent_width: nat,
    cmds: Seq<Cmd>,
    out: Seq<char>,
    column: nat,
) -> Seq<char>
    decreases stack_size(cmds),
{
    if cmds.len() == 0 {
        out
    } else {
        let indent = cmds.last().0;
        let mode = cmds.last().1;
        let rest = cmds.drop_last();
        proof {
            lemma_stack_push(rest, cmds.last());
            assert(rest.push(cmds.last()) =~= cmds);
        }
        match cmds.last().2 {
            DocV::Nil => layout_spec(max_width, indent_width, rest, out, column),
            DocV::Text(text) => layout_spec(
                max_width,
                indent_width,
                rest,
                out + text,
                column + text.len(),
            ),
            DocV::Concat(children) => {
                proof {
                    lemma_rev_cmds(children, indent, mode, 0);
                    lemma_stack_append(rest, rev_cmds(children, indent, mode));
                }
                layout_spec(
                    max_width,
                    indent_width,
                    rest + rev_cmds(children, indent, mode),
                    out,
                    column,
                )
            },
            DocV::Line(kind) => if kind == LineKind::Soft && mode == Mode::Flat {
                layout_spec(max_width, indent_width, rest, out.push(' '), column + 1)
            } else {
                layout_spec(max_width, indent_width, rest, line_break(out, kind, indent), indent)
            },
            DocV::Indent(inner) => {
                proof {
                    lemma_stack_push(rest, (indent + indent_width, mode, *inner));
                }
                layout_spec(
                    max_width,
                    indent_width,
                    rest.push((indent + indent_width, mode, *inner)),
                    out,
                    column,
                )
            },
            DocV::Outdent(inner) => {
                proof {
                    lemma_stack_push(rest, (sat_sub(indent, indent_width), mode, *inner));
                }
                layout_spec(
                    max_width,
                    indent_width,
                    rest.push((sat_sub(indent, indent_width), mode, *inner)),
                    out,
                    column,
                )
            },
            DocV::Group(inner) => {
                let group_mode = if has_forced_line_spec(*inner) || !fits_spec(
                    sat_sub(max_width, column),
                    rest.push((indent, Mode::Flat, *inner)),
                ) {
                    Mode::Broken
                } else {
                    Mode::Flat
                };
                proof {
                    lemma_stack_push(rest, (indent, group_mode, *inner));
                }
                layout_spec(
                    max_width,
                    indent_width,
                    rest.push((indent, group_mode, *inner)),
                    out,
                    column,
                )
            },
            DocV::Fill { flat, broken, space_when_flat, indent_levels_on_break } => {
                let space: nat = if space_when_flat {
                    1
                } else {
                    0
                };
                if column + space <= max_width && fits_broken_prefix_spec(
                    (max_width - column - space) as nat,
                    rest.push((0, Mode::Broken, *flat)),
                ) {
                    proof {
                        lemma_stack_push(rest, (indent, mode, *flat));
                    }
                    layout_spec(
                        max_width,
                        indent_width,
                        rest.push((indent, mode, *flat)),
                        out + spaces(space),
                        column + space,
                    )
                } else {
                    let new_indent = indent + indent_levels_on_break * indent_width;
                    proof {
                        lemma_stack_push(rest, (new_indent, mode, *broken));
                    }
                    layout_spec(
                        max_width,
                        indent_width,
                        rest.push((new_indent, mode, *broken)),
                        out.push('\n') + spaces(new_indent),
                        new_indent,
                    )
                }
            },
            DocV::IfBreak { broken, flat } => {
                let chosen = if mode == Mode::Broken {
                    *broken
                } else {
                    *flat
                };
                proof {
                    lemma_stack_push(rest, (indent, mode, chosen));
                }
                layout_spec(
                    max_width,
                    indent_width,
                    rest.push((indent, mode, chosen)),
                    out,
                    column,
                )
            },
        }
    }
}

/// Whether `c` is a space or a tab.
pub open spec fn is_blank(c: char) -> bool {
    c == ' ' || c == '\t'
}

/// Text being tidied: what is kept so far, which ends in neither a line feed
/// nor a blank, the blanks since, and the line feeds since.
pub struct Tidy {
    pub out: Seq<char>,
    pub blanks: Seq<char>,
    pub newlines: nat,
}

pub open spec fn line_feeds(n: nat) -> Seq<char> {
    Seq::new(n, |i: int| '\n')
}

/// One character more: blanks wait; a line feed drops the blanks before it;
/// any other character keeps up to two of the line feeds before it, then
/// the blanks before it, then itself.
pub open spec fn tidy_step(t: Tidy, c: char) -> Tidy {
    if is_blank(c) {
        Tidy { blanks: t.blanks.push(c), ..t }
    } else if c == '\n' {
        Tidy { blanks: seq![], newlines: t.newlines + 1, ..t }
    } else {
        Tidy {
            out: t.out + line_feeds(min_nat(t.newlines, 2)) + t.blanks + seq![c],
            blanks: seq![],
            newlines: 0,
        }
    }
}

pub open spec fn tidy(text: Seq<char>) -> Tidy
    decreases text.len(),
{
    if text.len() == 0 {
        Tidy { out: seq![], blanks: seq![], newlines: 0 }
    } else {
        tidy_step(tidy(text.drop_last()), text.last())
    }
}

/// The final output: no blanks at the end of a line, at most one blank line
/// in a row, and exactly one final line feed.
pub open spec fn normalize_spec(text: Seq<char>) -> Seq<char> {
    tidy(text).out.push('\n')
}

/// The rendering of `doc` with `options`.
pub open spec fn render_spec(doc: DocV, options: FormatOptions) -> Seq<char> {
    normalize_spec(
        layout_spec(
            options.max_width as nat,
            options.indent_width as nat,
            seq![(0nat, Mode::Broken, doc)],
            Seq::empty(),
            0,
        ),
    )
}


// ---------------------------------------------------------------------------
// Facts about the measures and the output.

pub proof fn lemma_cmds_push(commands: Seq<Command>, command: Command)
    ensures
        cmds_of(commands.push(command)) == cmds_of(commands).push(cmd_of(command)),
{
    assert(cmds_of(commands.push(command)) =~= cmds_of(commands).push(cmd_of(command)));
}

pub proof fn lemma_cmds_pop(commands: Seq<Command>)
    requires
        commands.len() > 0,
    ensures
        cmds_of(commands.drop_last()) == cmds_of(commands).drop_last(),
        cmds_of(commands).last() == cmd_of(commands.last()),
        cmds_of(commands).len() == commands.len(),
{
    assert(cmds_of(commands.drop_last()) =~= cmds_of(commands).drop_last());
}

pub proof fn lemma_trailing_push(text: Seq<char>, c: char)
    ensures
        trailing_newlines(text.push(c)) == if c == '\n' {
            trailing_newlines(text) + 1
        } else {
            0
        },
{
    assert(text.push(c).drop_last() =~= text);
}

pub proof fn lemma_trailing_concat(a: Seq<char>, b: Seq<char>)
    ensures
        trailing_newlines(a + b) == if trailing_newlines(b) == b.len() {
            trailing_newlines(a) + b.len()
        } else {
            trailing_newlines(b)
        },
        trailing_newlines(b) <= b.len(),
    decreases b.len(),
{
    if b.len() == 0 {
        assert(a + b =~= a);
    } else {
        lemma_trailing_concat(a, b.drop_last());
        assert((a + b).drop_last() =~= a + b.drop_last());
    }
}

pub proof fn lemma_trailing_spaces(text: Seq<char>, count: nat)
    ensures
        trailing_newlines(text + spaces(count)) == if count > 0 {
            0
        } else {
            trailing_newlines(text)
        },
{
    lemma_trailing_concat(text, spaces(count));
    if count > 0 {
        assert(spaces(count).last() == ' ');
    }
}


pub proof fn lemma_docs_gain(docs: Seq<DocV>, indent_width: nat, i: int)
    requires
        0 <= i < docs.len(),
    ensures
        doc_gain(docs[i], indent_width) <= docs_gain(docs, indent_width),
    decreases docs.len(),
{
    if i < docs.len() - 1 {
        lemma_docs_gain(docs.drop_last(), indent_width, i);
    }
}

// ---------------------------------------------------------------------------
// Executable layout.

pub open spec fn min_nat(a: nat, b: nat) -> nat {
    if a <= b {
        a
    } else {
        b
    }
}

/// Pushes the commands for `docs`, last document first.
fn push_children<'a>(commands: &mut Vec<Command<'a>>, docs: &'a Vec<Doc>, indent: usize, mode: Mode)
    ensures
        cmds_of(final(commands)@) == cmds_of(old(commands)@) + rev_cmds(
            docs_view(docs@),
            indent as nat,
            mode,
        ),
{
    let ghost base = cmds_of(commands@);
    let ghost views = docs_view(docs@);
    proof {
        lemma_docs_view(docs@);
    }
    let mut i = docs.len();
    while i > 0
        invariant
            i <= docs@.len(),
            views == docs_view(docs@),
            views.len() == docs@.len(),
            forall|j: int| 0 <= j < docs@.len() ==> #[trigger] views[j] == doc_view(docs@[j]),
            cmds_of(commands@) == base + rev_cmds(views, indent as nat, mode).take(
                docs@.len() - i,
            ),
        decreases i,
    {
        i -= 1;
        let ghost before = commands@;
        commands.push(Command { indent, mode, doc: &docs[i] });
        proof {
            lemma_cmds_push(before, Command { indent, mode, doc: &docs[i as int] });
            assert(cmds_of(commands@) =~= base + rev_cmds(views, indent as nat, mode).take(
                docs@.len() - i,
            ));
        }
    }
    assert(rev_cmds(views, indent as nat, mode).take(docs@.len() as int) =~= rev_cmds(
        views,
        indent as nat,
        mode,
    ));
}

/// Whether `doc` holds a hard or empty line outside any flat alternative.
pub fn has_forced_line(doc: &Doc) -> (result: bool)
    ensures
        result == has_forced_line_spec(doc@),
    decreases doc,
{
    match doc {
        Doc::Nil | Doc::Text(_) => false,
        Doc::Line(kind) => !matches!(kind, LineKind::Soft),
        Doc::Concat(docs) => {
            let ghost views = docs_view(docs@);
            proof {
                lemma_docs_view(docs@);
            }
            let mut i: usize = 0;
            let mut found = false;
            while i < docs.len()
                invariant
                    *doc == Doc::Concat(*docs),
                    i <= docs@.len(),
                    views == docs_view(docs@),
                    views.len() == docs@.len(),
                    forall|j: int| 0 <= j < docs@.len() ==> #[trigger] views[j] == doc_view(docs@[j]),
                    found == docs_have_forced_line(views.take(i as int)),
                decreases docs@.len() - i,
            {
                proof {
                    assert(decreases_to!(*doc => (*doc)->Concat_0));
                    assert(decreases_to!(*doc => docs@[i as int]));
                    assert(views.take(i + 1).drop_last() =~= views.take(i as int));
                }
                let child = has_forced_line(&docs[i]);
                found = found || child;
                i += 1;
            }
            assert(views.take(i as int) =~= views);
            found
        },
        Doc::Indent(inner) | Doc::Outdent(inner) | Doc::Group(inner) => has_forced_line(inner),
        Doc::Fill { flat, .. } => has_forced_line(flat),
        Doc::IfBreak { flat, .. } => has_forced_line(flat),
    }
}

/// Whether `doc`, laid out flat at `initial_indent` and followed by
/// `remaining_commands`, reaches a line end within `remaining` columns.
#[verifier::loop_isolation(false)]
pub fn fits<'a>(
    remaining: usize,
    initial_indent: usize,
    doc: &'a Doc,
    remaining_commands: &Vec<Command<'a>>,
) -> (result: bool)
    ensures
        result == fits_spec(
            remaining as nat,
            cmds_of(remaining_commands@).push((initial_indent as nat, Mode::Flat, doc@)),
        ),
{
    let mut commands: Vec<Command<'a>> = Vec::new();
    let mut i: usize = 0;
    while i < remaining_commands.len()
        invariant
            i <= remaining_commands@.len(),
            commands@ == remaining_commands@.take(i as int),
        decreases remaining_commands@.len() - i,
    {
        commands.push(remaining_commands[i]);
        i += 1;
        assert(commands@ =~= remaining_commands@.take(i as int));
    }
    assert(commands@ =~= remaining_commands@);
    let ghost first = Command { indent: initial_indent, mode: Mode::Flat, doc };
    commands.push(Command { indent: initial_indent, mode: Mode::Flat, doc });
    proof {
        lemma_cmds_push(remaining_commands@, first);
    }
    let ghost goal = fits_spec(
        remaining as nat,
        cmds_of(remaining_commands@).push((initial_indent as nat, Mode::Flat, doc@)),
    );
    let mut remaining = remaining;
    while commands.len() > 0
        invariant
            fits_spec(remaining as nat, cmds_of(commands@)) == goal,
        decreases stack_size(cmds_of(commands@)),
    {
        let ghost before = commands@;
        let command = commands.pop().unwrap();
        proof {
            lemma_cmds_pop(before);
            assert(commands@ == before.drop_last());
            lemma_stack_push(cmds_of(commands@), cmd_of(command));
            assert(cmds_of(commands@).push(cmd_of(command)) =~= cmds_of(before));
        }
        let ghost rest = cmds_of(commands@);
        match command.doc {
            Doc::Nil => {},
            Doc::Text(text) => {
                let width = text.as_str().unicode_len();
                if width > remaining {
                    return false;
                }
                remaining -= width;
            },
            Doc::Concat(docs) => {
                push_children(&mut commands, docs, command.indent, command.mode);
                proof {
                    lemma_rev_cmds(docs_view(docs@), command.indent as nat, command.mode, 0);
                    lemma_stack_append(rest, rev_cmds(docs_view(docs@), command.indent as nat, command.mode));
                }
            },
            Doc::Line(kind) => {
                if matches!(kind, LineKind::Soft) && command.mode == Mode::Flat {
                    if remaining == 0 {
                        return false;
                    }
                    remaining -= 1;
                } else {
                    return true;
                }
            },
            Doc::Indent(inner) | Doc::Outdent(inner) | Doc::Group(inner) => {
                let next = Command { indent: command.indent, mode: command.mode, doc: &**inner };
                commands.push(next);
                proof {
                    lemma_cmds_push(before.drop_last(), next);
                    lemma_stack_push(rest, cmd_of(next));
                }
            },
            Doc::Fill { flat, space_when_flat, .. } => {
                if *space_when_flat {
                    if remaining == 0 {
                        return false;
                    }
                    remaining -= 1;
                }
                let next = Command { indent: command.indent, mode: command.mode, doc: &**flat };
                commands.push(next);
                proof {
                    lemma_cmds_push(before.drop_last(), next);
                    lemma_stack_push(rest, cmd_of(next));
                }
            },
            Doc::IfBreak { broken, flat } => {
                let chosen: &Doc = if command.mode == Mode::Broken {
                    &**broken
                } else {
                    &**flat
                };
                let next = Command { indent: command.indent, mode: command.mode, doc: chosen };
                commands.push(next);
                proof {
                    lemma_cmds_push(before.drop_last(), next);
                    lemma_stack_push(rest, cmd_of(next));
                }
            },
        }
    }
    true
}


/// Whether `doc`, laid out broken and followed by `remaining_commands`,
/// reaches its first line break within `remaining` columns.
#[verifier::loop_isolation(false)]
pub fn fits_broken_prefix<'a>(
    remaining: usize,
    doc: &'a Doc,
    remaining_commands: &Vec<Command<'a>>,
) -> (result: bool)
    ensures
        result == fits_broken_prefix_spec(
            remaining as nat,
            cmds_of(remaining_commands@).push((0nat, Mode::Broken, doc@)),
        ),
{
    let mut commands: Vec<Command<'a>> = Vec::new();
    let mut i: usize = 0;
    while i < remaining_commands.len()
        invariant
            i <= remaining_commands@.len(),
            commands@ == remaining_commands@.take(i as int),
        decreases remaining_commands@.len() - i,
    {
        commands.push(remaining_commands[i]);
        i += 1;
        assert(commands@ =~= remaining_commands@.take(i as int));
    }
    assert(commands@ =~= remaining_commands@);
    let ghost first = Command { indent: 0, mode: Mode::Broken, doc };
    commands.push(Command { indent: 0, mode: Mode::Broken, doc });
    proof {
        lemma_cmds_push(remaining_commands@, first);
    }
    let ghost goal = fits_broken_prefix_spec(
        remaining as nat,
        cmds_of(remaining_commands@).push((0nat, Mode::Broken, doc@)),
    );
    let mut remaining = remaining;
    while commands.len() > 0
        invariant
            fits_broken_prefix_spec(remaining as nat, cmds_of(commands@)) == goal,
        decreases stack_size(cmds_of(commands@)),
    {
        let ghost before = commands@;
        let command = commands.pop().unwrap();
        proof {
            lemma_cmds_pop(before);
            assert(commands@ == before.drop_last());
            lemma_stack_push(cmds_of(commands@), cmd_of(command));
            assert(cmds_of(commands@).push(cmd_of(command)) =~= cmds_of(before));
        }
        let ghost rest = cmds_of(commands@);
        match command.doc {
            Doc::Nil => {},
            Doc::Text(text) => {
                let width = text.as_str().unicode_len();
                if width > remaining {
                    return false;
                }
                remaining -= width;
            },
            Doc::Concat(docs) => {
                push_children(&mut commands, docs, command.indent, Mode::Broken);
                proof {
                    lemma_rev_cmds(docs_view(docs@), command.indent as nat, Mode::Broken, 0);
                    lemma_stack_append(rest, rev_cmds(docs_view(docs@), command.indent as nat, Mode::Broken));
                }
            },
            Doc::Line(_) => {
                return true;
            },
            Doc::Indent(inner) | Doc::Outdent(inner) | Doc::Group(inner) => {
                let next = Command { indent: command.indent, mode: Mode::Broken, doc: &**inner };
                commands.push(next);
                proof {
                    lemma_cmds_push(before.drop_last(), next);
                    lemma_stack_push(rest, cmd_of(next));
                }
            },
            Doc::Fill { .. } => {
                return true;
            },
            Doc::IfBreak { broken, .. } => {
                let next = Command { indent: command.indent, mode: Mode::Broken, doc: &**broken };
                commands.push(next);
                proof {
                    lemma_cmds_push(before.drop_last(), next);
                    lemma_stack_push(rest, cmd_of(next));
                }
            },
        }
    }
    true
}

/// `output` with the blanks at the end of each line dropped, at most one
/// blank line kept in a row, and exactly one final line feed.
pub fn normalize_output(output: &str) -> (result: String)
    ensures
        result@ == normalize_spec(output@),
{
    let len = output.unicode_len();
    let mut result = String::new();
    let mut newlines: usize = 0;
    let mut blank_start: usize = 0;
    let mut blank_len: usize = 0;
    let mut i: usize = 0;
    proof {
        assert(output@.take(0) =~= Seq::<char>::empty());
        assert(output@.subrange(0, 0) =~= Seq::<char>::empty());
    }
    while i < len
        invariant
            len == output@.len(),
            i <= len,
            newlines <= i,
            blank_len == 0 || blank_start + blank_len == i,
            blank_start + blank_len <= i,
            tidy(output@.take(i as int)) == (Tidy {
                out: result@,
                blanks: output@.subrange(blank_start as int, blank_start + blank_len),
                newlines: newlines as nat,
            }),
        decreases len - i,
    {
        let c = output.get_char(i);
        proof {
            assert(output@.take(i + 1).drop_last() =~= output@.take(i as int));
            assert(output@.take(i + 1).last() == c);
        }
        let ghost old_blanks = output@.subrange(blank_start as int, blank_start + blank_len);
        if c == ' ' || c == '\t' {
            if blank_len == 0 {
                blank_start = i;
                assert(old_blanks =~= output@.subrange(blank_start as int, blank_start + blank_len));
            }
            proof {
                assert(output@.subrange(blank_start as int, blank_start + blank_len + 1) =~= output@.subrange(
                    blank_start as int,
                    blank_start + blank_len,
                ).push(c));
            }
            blank_len = blank_len + 1;
        } else if c == '\n' {
            blank_len = 0;
            newlines = newlines + 1;
            proof {
                assert(output@.subrange(blank_start as int, blank_start as int) =~= Seq::<char>::empty());
            }
        } else {
            let ghost before = result@;
            if newlines >= 2 {
                proof {
                    reveal_strlit("\n\n");
                }
                result.append("\n\n");
                assert(line_feeds(2) =~= seq!['\n', '\n']);
            } else if newlines == 1 {
                proof {
                    reveal_strlit("\n");
                }
                result.append("\n");
                assert(line_feeds(1) =~= seq!['\n']);
            } else {
                assert(line_feeds(0) =~= Seq::<char>::empty());
            }
            let ghost with_feeds = result@;
            assert(with_feeds == before + line_feeds(min_nat(newlines as nat, 2)));
            result.append(output.substring_char(blank_start, blank_start + blank_len));
            result.append(output.substring_char(i, i + 1));
            proof {
                assert(output@.subrange(i as int, i + 1) =~= seq![c]);
                assert(result@ =~= before + line_feeds(min_nat(newlines as nat, 2)) + old_blanks + seq![c]);
            }
            newlines = 0;
            blank_len = 0;
            proof {
                assert(output@.subrange(blank_start as int, blank_start as int) =~= Seq::<char>::empty());
            }
        }
        i = i + 1;
    }
    proof {
        assert(output@.take(len as int) =~= output@);
        reveal_strlit("\n");
    }
    result.append("\n");
    result
}

/// The capped count of trailing line feeds after `text` is appended to an
/// output whose capped count is `trail`.
fn trail_after(trail: usize, text: &str) -> (result: usize)
    requires
        trail <= 2,
    ensures
        forall|out: Seq<char>|
            trail == min_nat(trailing_newlines(out), 2) ==> result == min_nat(
                #[trigger] trailing_newlines(out + text@),
                2,
            ),
{
    let len = text.unicode_len();
    if len == 0 {
        assert forall|out: Seq<char>| trail == min_nat(trailing_newlines(out), 2) implies trail == min_nat(
            #[trigger] trailing_newlines(out + text@),
            2,
        ) by {
            assert(out + text@ =~= out);
        }
        return trail;
    }
    let last = text.get_char(len - 1);
    let ghost t = text@;
    proof {
        assert(t.drop_last().push(t.last()) =~= t);
        lemma_trailing_push(t.drop_last(), t.last());
    }
    if last != '\n' {
        assert forall|out: Seq<char>| trail == min_nat(trailing_newlines(out), 2) implies 0 == min_nat(
            #[trigger] trailing_newlines(out + text@),
            2,
        ) by {
            lemma_trailing_concat(out, t);
        }
        return 0;
    }
    if len == 1 {
        let result = if trail < 2 {
            trail + 1
        } else {
            2
        };
        assert forall|out: Seq<char>| trail == min_nat(trailing_newlines(out), 2) implies result
            == min_nat(#[trigger] trailing_newlines(out + text@), 2) by {
            lemma_trailing_concat(out, t);
            assert(t.drop_last() =~= Seq::<char>::empty());
        }
        return result;
    }
    let second = text.get_char(len - 2);
    proof {
        let u = t.drop_last();
        assert(u.drop_last().push(u.last()) =~= u);
        lemma_trailing_push(u.drop_last(), u.last());
    }
    if second != '\n' {
        assert forall|out: Seq<char>| trail == min_nat(trailing_newlines(out), 2) implies 1 == min_nat(
            #[trigger] trailing_newlines(out + text@),
            2,
        ) by {
            lemma_trailing_concat(out, t);
        }
        1
    } else {
        assert forall|out: Seq<char>| trail == min_nat(trailing_newlines(out), 2) implies 2 == min_nat(
            #[trigger] trailing_newlines(out + text@),
            2,
        ) by {
            lemma_trailing_concat(out, t);
            lemma_trailing_concat(Seq::<char>::empty(), t.drop_last().drop_last());
        }
        2
    }
}

/// Appends `count` spaces.
fn push_spaces(output: &mut String, count: usize)
    ensures
        final(output)@ == old(output)@ + spaces(count as nat),
{
    let ghost start = output@;
    let mut i: usize = 0;
    proof {
        reveal_strlit(" ");
    }
    while i < count
        invariant
            i <= count,
            output@ == start + spaces(i as nat),
        decreases count - i,
    {
        proof {
            reveal_strlit(" ");
        }
        output.append(" ");
        i += 1;
        assert(output@ =~= start + spaces(i as nat));
    }
}


/// Lays `doc` out with `options`.
#[verifier::loop_isolation(false)]
#[verifier::rlimit(60)]
pub fn render(doc: &Doc, options: &FormatOptions) -> (result: String)
    requires
        fits_machine(doc@, *options),
    ensures
        result@ == render_spec(doc@, *options),
{
    let ghost max_width = options.max_width as nat;
    let ghost indent_width = options.indent_width as nat;
    let ghost bound_indent = doc_gain(doc@, indent_width);
    let ghost bound_width = doc_width(doc@);
    let ghost goal = layout_spec(
        max_width,
        indent_width,
        seq![(0nat, Mode::Broken, doc@)],
        Seq::empty(),
        0,
    );
    let mut output = String::new();
    let mut column: usize = 0;
    let mut trail: usize = 0;
    let mut commands: Vec<Command> = Vec::new();
    commands.push(Command { indent: 0, mode: Mode::Broken, doc });
    proof {
        assert(cmds_of(commands@) =~= seq![(0nat, Mode::Broken, doc@)]);
        lemma_stack_push(Seq::<Cmd>::empty(), (0nat, Mode::Broken, doc@));
        assert(Seq::<Cmd>::empty().push((0nat, Mode::Broken, doc@)) =~= seq![(0nat, Mode::Broken, doc@)]);
    }
    while commands.len() > 0
        invariant
            layout_spec(max_width, indent_width, cmds_of(commands@), output@, column as nat) == goal,
            trail == min_nat(trailing_newlines(output@), 2),
            stack_indents_within(cmds_of(commands@), indent_width, bound_indent),
            stack_width(cmds_of(commands@)) <= bound_width,
            column + stack_width(cmds_of(commands@)) <= bound_indent + bound_width,
            bound_indent + bound_width <= usize::MAX,
        decreases stack_size(cmds_of(commands@)),
    {
        let ghost before = commands@;
        let command = commands.pop().unwrap();
        proof {
            lemma_cmds_pop(before);
            assert(commands@ == before.drop_last());
            lemma_stack_push(cmds_of(commands@), cmd_of(command));
            assert(cmds_of(commands@).push(cmd_of(command)) =~= cmds_of(before));
            assert(cmds_of(before)[before.len() - 1] == cmd_of(command));
        }
        let ghost rest = cmds_of(commands@);
        let ghost old_output = output@;
        assert(command.indent + doc_gain(command.doc@, indent_width) <= bound_indent);
        assert(stack_indents_within(rest, indent_width, bound_indent)) by {
            assert forall|i: int| 0 <= i < rest.len() implies #[trigger] rest[i].0 + doc_gain(
                rest[i].2,
                indent_width,
            ) <= bound_indent by {
                assert(rest[i] == cmds_of(before)[i]);
            }
        }
        match command.doc {
            Doc::Nil => {},
            Doc::Text(text) => {
                let width = text.as_str().unicode_len();
                let next_trail = trail_after(trail, text.as_str());
                output.append(text.as_str());
                column += width;
                trail = next_trail;
            },
            Doc::Concat(docs) => {
                push_children(&mut commands, docs, command.indent, command.mode);
                proof {
                    let views = docs_view(docs@);
                    lemma_rev_cmds(views, command.indent as nat, command.mode, indent_width);
                    lemma_stack_append(rest, rev_cmds(views, command.indent as nat, command.mode));
                    let now = cmds_of(commands@);
                    assert forall|i: int| 0 <= i < now.len() implies #[trigger] now[i].0 + doc_gain(
                        now[i].2,
                        indent_width,
                    ) <= bound_indent by {
                        if i >= rest.len() {
                            assert(now[i] == rev_cmds(views, command.indent as nat, command.mode)[i
                                - rest.len()]);
                        } else {
                            assert(now[i] == rest[i]);
                        }
                    }
                }
            },
            Doc::Line(kind) => {
                if matches!(kind, LineKind::Soft) && command.mode == Mode::Flat {
                    proof {
                        reveal_strlit(" ");
                        lemma_trailing_push(output@, ' ');
                    }
                    output.append(" ");
                    assert(output@ =~= old_output.push(' '));
                    column += 1;
                    trail = 0;
                } else {
                    proof {
                        reveal_strlit("\n");
                        lemma_trailing_push(output@, '\n');
                    }
                    output.append("\n");
                    assert(output@ =~= old_output.push('\n'));
                    trail = if trail < 2 {
                        trail + 1
                    } else {
                        2
                    };
                    let ghost first = output@;
                    if matches!(kind, LineKind::Empty) && trail < 2 {
                        proof {
                            reveal_strlit("\n");
                            lemma_trailing_push(output@, '\n');
                        }
                        output.append("\n");
                        assert(output@ =~= first.push('\n'));
                        trail = 2;
                    }
                    let ghost second = output@;
                    push_spaces(&mut output, command.indent);
                    proof {
                        lemma_trailing_spaces(second, command.indent as nat);
                    }
                    if command.indent > 0 {
                        trail = 0;
                    }
                    column = command.indent;
                }
            },
            Doc::Indent(inner) => {
                let next = Command {
                    indent: command.indent + options.indent_width,
                    mode: command.mode,
                    doc: &**inner,
                };
                commands.push(next);
                proof {
                    lemma_cmds_push(before.drop_last(), next);
                    lemma_stack_push(rest, cmd_of(next));
                }
            },
            Doc::Outdent(inner) => {
                let next = Command {
                    indent: command.indent.saturating_sub(options.indent_width),
                    mode: command.mode,
                    doc: &**inner,
                };
                commands.push(next);
                proof {
                    lemma_cmds_push(before.drop_last(), next);
                    lemma_stack_push(rest, cmd_of(next));
                }
            },
            Doc::Group(inner) => {
                let mode = if has_forced_line(inner) || !fits(
                    options.max_width.saturating_sub(column),
                    command.indent,
                    inner,
                    &commands,
                ) {
                    Mode::Broken
                } else {
                    Mode::Flat
                };
                let next = Command { indent: command.indent, mode, doc: &**inner };
                commands.push(next);
                proof {
                    lemma_cmds_push(before.drop_last(), next);
                    lemma_stack_push(rest, cmd_of(next));
                }
            },
            Doc::Fill { flat, broken, space_when_flat, indent_levels_on_break } => {
                let space: usize = if *space_when_flat {
                    1
                } else {
                    0
                };
                if column + space <= options.max_width && fits_broken_prefix(
                    options.max_width - column - space,
                    flat,
                    &commands,
                ) {
                    if space == 1 {
                        proof {
                            reveal_strlit(" ");
                            lemma_trailing_push(output@, ' ');
                        }
                        output.append(" ");
                        trail = 0;
                    }
                    assert(output@ =~= old_output + spaces(space as nat));
                    column += space;
                    let next = Command { indent: command.indent, mode: command.mode, doc: &**flat };
                    commands.push(next);
                    proof {
                        lemma_cmds_push(before.drop_last(), next);
                        lemma_stack_push(rest, cmd_of(next));
                    }
                } else {
                    proof {
                        assert((*indent_levels_on_break as nat) * indent_width <= bound_indent);
                    }
                    let new_indent = command.indent + *indent_levels_on_break
                        * options.indent_width;
                    proof {
                        reveal_strlit("\n");
                        lemma_trailing_push(output@, '\n');
                    }
                    output.append("\n");
                    trail = if trail < 2 {
                        trail + 1
                    } else {
                        2
                    };
                    let ghost first = output@;
                    assert(first =~= old_output.push('\n'));
                    push_spaces(&mut output, new_indent);
                    proof {
                        lemma_trailing_spaces(first, new_indent as nat);
                    }
                    if new_indent > 0 {
                        trail = 0;
                    }
                    column = new_indent;
                    let next = Command { indent: new_indent, mode: command.mode, doc: &**broken };
                    commands.push(next);
                    proof {
                        lemma_cmds_push(before.drop_last(), next);
                        lemma_stack_push(rest, cmd_of(next));
                    }
                }
            },
            Doc::IfBreak { broken, flat } => {
                let chosen: &Doc = if command.mode == Mode::Broken {
                    &**broken
                } else {
                    &**flat
                };
                let next = Command { indent: command.indent, mode: command.mode, doc: chosen };
                commands.push(next);
                proof {
                    lemma_cmds_push(before.drop_last(), next);
                    lemma_stack_push(rest, cmd_of(next));
                }
            },
        }
    }
    normalize_output(output.as_str())
}


// ---------------------------------------------------------------------------
// Laws of the renderer.

/// Whether `out` is as tidying leaves it: no blank just before a line feed,
/// never three line feeds in a row, and neither a line feed nor a blank at
/// the end.
pub open spec fn tidy_text(out: Seq<char>) -> bool {
    &&& forall|i: int| 0 < i < out.len() && #[trigger] out[i] == '\n' ==> !is_blank(out[i - 1])
    &&& forall|i: int|
        0 <= i && i + 2 < out.len() && #[trigger] out[i] == '\n' ==> !(out[i + 1] == '\n' && out[i + 2] == '\n')
    &&& out.len() == 0 || (out.last() != '\n' && !is_blank(out.last()))
}

proof fn lemma_tidy_keeps(text: Seq<char>)
    ensures
        tidy_text(tidy(text).out),
        forall|j: int| 0 <= j < tidy(text).blanks.len() ==> is_blank(#[trigger] tidy(text).blanks[j]),
    decreases text.len(),
{
    if text.len() > 0 {
        let front = tidy(text.drop_last());
        lemma_tidy_keeps(text.drop_last());
        let c = text.last();
        if !is_blank(c) && c != '\n' {
            let out = front.out;
            let feeds = line_feeds(min_nat(front.newlines, 2));
            let blanks = front.blanks;
            let next = out + feeds + blanks + seq![c];
            let n0 = out.len() as int;
            let nf = feeds.len() as int;
            let nb = blanks.len() as int;
            assert(next.len() == n0 + nf + nb + 1);
            assert forall|i: int| 0 <= i < next.len() implies #[trigger] next[i] == if i < n0 {
                out[i]
            } else if i < n0 + nf {
                '\n'
            } else if i < n0 + nf + nb {
                blanks[i - n0 - nf]
            } else {
                c
            } by {}
            assert forall|i: int| 0 < i < next.len() && #[trigger] next[i] == '\n' implies !is_blank(next[i - 1]) by {
                if i < n0 {
                    assert(out[i] == '\n');
                } else if i < n0 + nf {
                    if i == n0 {
                        assert(next[i - 1] == out.last());
                    }
                } else if i < n0 + nf + nb {
                    assert(is_blank(blanks[i - n0 - nf]));
                }
            }
            assert forall|i: int|
                0 <= i && i + 2 < next.len() && #[trigger] next[i] == '\n' implies !(next[i + 1] == '\n' && next[i
                    + 2] == '\n') by {
                if i + 2 < n0 {
                    assert(out[i] == '\n');
                } else if i < n0 {
                    if i + 1 >= n0 {
                        assert(next[i] == out.last());
                    } else {
                        assert(next[i + 1] == out.last());
                    }
                } else if i + 2 < n0 + nf {
                    assert(nf <= 2);
                } else if i + 2 < n0 + nf + nb {
                    assert(is_blank(blanks[i + 2 - n0 - nf]));
                }
            }
        }
    }
}

/// Normalized text ends with exactly one line feed, and is tidy before it.
proof fn lemma_normalize_shape(text: Seq<char>)
    ensures
        trailing_newlines(normalize_spec(text)) == 1,
        normalize_spec(text) == tidy(text).out.push('\n'),
        tidy_text(tidy(text).out),
{
    let out = tidy(text).out;
    lemma_tidy_keeps(text);
    lemma_trailing_push(out, '\n');
    if out.len() > 0 {
        assert(out =~= out.drop_last().push(out.last()));
        lemma_trailing_push(out.drop_last(), out.last());
    }
}

/// Whether `text` has no blank just before a line feed and never three line
/// feeds in a row.
pub open spec fn neat(text: Seq<char>) -> bool {
    &&& forall|i: int| 0 < i < text.len() && #[trigger] text[i] == '\n' ==> !is_blank(text[i - 1])
    &&& forall|i: int|
        0 <= i && i + 2 < text.len() && #[trigger] text[i] == '\n' ==> !(text[i + 1] == '\n' && text[i + 2] == '\n')
}

/// On neat text, tidying holds back only the line feeds and blanks at its
/// end, in the order they come.
proof fn lemma_tidy_neat(text: Seq<char>)
    requires
        neat(text),
    ensures
        tidy(text).out + line_feeds(tidy(text).newlines) + tidy(text).blanks == text,
        tidy(text).newlines <= 2,
    decreases text.len(),
{
    if text.len() == 0 {
        assert(line_feeds(0) =~= Seq::<char>::empty());
        assert(Seq::<char>::empty() + line_feeds(0) + Seq::<char>::empty() =~= text);
    } else {
        let front = text.drop_last();
        let c = text.last();
        let n = text.len() as int;
        assert forall|i: int| 0 < i < front.len() && #[trigger] front[i] == '\n' implies !is_blank(front[i - 1]) by {
            assert(text[i] == '\n');
        }
        assert forall|i: int|
            0 <= i && i + 2 < front.len() && #[trigger] front[i] == '\n' implies !(front[i + 1] == '\n' && front[i + 2]
                == '\n') by {
            assert(text[i] == '\n');
        }
        lemma_tidy_neat(front);
        lemma_tidy_keeps(front);
        let t = tidy(front);
        let feeds = line_feeds(t.newlines);
        assert(text =~= front.push(c));
        assert(text[n - 1] == c);
        if is_blank(c) {
            assert(t.out + feeds + t.blanks.push(c) =~= text);
        } else if c == '\n' {
            if t.blanks.len() > 0 {
                assert(front.last() == t.blanks.last());
                assert(is_blank(t.blanks[t.blanks.len() - 1]));
                assert(text[n - 1] == '\n');
                assert(text[n - 2] == front.last());
            }
            if t.newlines == 2 && t.blanks.len() == 0 {
                assert(front[front.len() - 1] == '\n');
                assert(front[front.len() - 2] == '\n');
                assert(text[n - 3] == '\n');
                assert(text[n - 2] == '\n');
            }
            assert(t.out + line_feeds(t.newlines + 1) + Seq::<char>::empty() =~= text);
        } else {
            assert(min_nat(t.newlines, 2) == t.newlines);
            assert(line_feeds(0) =~= Seq::<char>::empty());
            assert(t.out + feeds + t.blanks + seq![c] + line_feeds(0) + Seq::<char>::empty() =~= text);
        }
    }
}

/// Normalizing normalized text changes nothing.
pub proof fn law_normalize_idempotent(text: Seq<char>)
    ensures
        normalize_spec(normalize_spec(text)) == normalize_spec(text),
{
    lemma_normalize_shape(text);
    let o = tidy(text).out;
    let n = o.push('\n');
    lemma_tidy_neat(o);
    lemma_tidy_keeps(o);
    let t = tidy(o);
    if t.blanks.len() > 0 {
        assert(o.last() == t.blanks.last());
        assert(is_blank(t.blanks[t.blanks.len() - 1]));
    } else if t.newlines > 0 {
        assert(o.last() == line_feeds(t.newlines).last());
    }
    assert(line_feeds(t.newlines) =~= Seq::<char>::empty());
    assert(t.out =~= o);
    assert(n.drop_last() =~= o);
}

/// Every rendering ends with exactly one line feed.
pub proof fn law_render_ends_with_line_feed(doc: DocV, options: FormatOptions)
    ensures
        trailing_newlines(render_spec(doc, options)) == 1,
        render_spec(doc, options).last() == '\n',
{
    lemma_normalize_shape(
        layout_spec(
            options.max_width as nat,
            options.indent_width as nat,
            seq![(0nat, Mode::Broken, doc)],
            Seq::empty(),
            0,
        ),
    );
}

/// No rendering has a space or tab at the end of a line, and none has two
/// blank lines in a row.
pub proof fn law_render_is_tidy(doc: DocV, options: FormatOptions)
    ensures
        forall|i: int|
            0 < i < render_spec(doc, options).len() && #[trigger] render_spec(doc, options)[i] == '\n'
                ==> !is_blank(render_spec(doc, options)[i - 1]),
        forall|i: int|
            0 <= i && i + 2 < render_spec(doc, options).len() && #[trigger] render_spec(doc, options)[i] == '\n'
                ==> !(render_spec(doc, options)[i + 1] == '\n' && render_spec(doc, options)[i + 2] == '\n'),
{
    let text = layout_spec(
        options.max_width as nat,
        options.indent_width as nat,
        seq![(0nat, Mode::Broken, doc)],
        Seq::empty(),
        0,
    );
    lemma_normalize_shape(text);
    let out = tidy(text).out;
    let r = render_spec(doc, options);
    assert(r == out.push('\n'));
    assert forall|i: int| 0 < i < r.len() && #[trigger] r[i] == '\n' implies !is_blank(r[i - 1]) by {
        if i < out.len() {
            assert(out[i] == '\n');
        } else {
            assert(r[i - 1] == out.last());
        }
    }
    assert forall|i: int| 0 <= i && i + 2 < r.len() && #[trigger] r[i] == '\n' implies !(r[i + 1] == '\n'
        && r[i + 2] == '\n') by {
        if i + 2 < out.len() {
            assert(out[i] == '\n');
        } else {
            assert(r[i + 1] == out.last());
        }
    }
}

/// Whatever fits in some width fits in any wider one.
pub proof fn law_fits_monotone(narrow: nat, wide: nat, cmds: Seq<Cmd>)
    requires
        narrow <= wide,
        fits_spec(narrow, cmds),
    ensures
        fits_spec(wide, cmds),
    decreases stack_size(cmds),
{
    if cmds.len() > 0 {
        let indent = cmds.last().0;
        let mode = cmds.last().1;
        let rest = cmds.drop_last();
        lemma_stack_push(rest, cmds.last());
        assert(rest.push(cmds.last()) =~= cmds);
        match cmds.last().2 {
            DocV::Nil => law_fits_monotone(narrow, wide, rest),
            DocV::Text(text) => law_fits_monotone(
                (narrow - text.len()) as nat,
                (wide - text.len()) as nat,
                rest,
            ),
            DocV::Concat(children) => {
                lemma_rev_cmds(children, indent, mode, 0);
                lemma_stack_append(rest, rev_cmds(children, indent, mode));
                law_fits_monotone(narrow, wide, rest + rev_cmds(children, indent, mode));
            },
            DocV::Line(kind) => if kind == LineKind::Soft && mode == Mode::Flat {
                law_fits_monotone((narrow - 1) as nat, (wide - 1) as nat, rest);
            },
            DocV::Indent(inner) => {
                lemma_stack_push(rest, (indent, mode, *inner));
                law_fits_monotone(narrow, wide, rest.push((indent, mode, *inner)));
            },
            DocV::Outdent(inner) => {
                lemma_stack_push(rest, (indent, mode, *inner));
                law_fits_monotone(narrow, wide, rest.push((indent, mode, *inner)));
            },
            DocV::Group(inner) => {
                lemma_stack_push(rest, (indent, mode, *inner));
                law_fits_monotone(narrow, wide, rest.push((indent, mode, *inner)));
            },
            DocV::Fill { flat, space_when_flat, .. } => {
                lemma_stack_push(rest, (indent, mode, *flat));
                if space_when_flat {
                    law_fits_monotone((narrow - 1) as nat, (wide - 1) as nat, rest.push((indent, mode, *flat)));
                } else {
                    law_fits_monotone(narrow, wide, rest.push((indent, mode, *flat)));
                }
            },
            DocV::IfBreak { broken, flat } => {
                let chosen = if mode == Mode::Broken {
                    *broken
                } else {
                    *flat
                };
                lemma_stack_push(rest, (indent, mode, chosen));
                law_fits_monotone(narrow, wide, rest.push((indent, mode, chosen)));
            },
        }
    }
}

/// A text with no line feed that does not end with a blank renders as
/// itself followed by one line feed, whatever the options.
pub proof fn law_render_text(text: Seq<char>, options: FormatOptions)
    requires
        forall|i: int| 0 <= i < text.len() ==> text[i] != '\n',
        text.len() == 0 || !is_blank(text.last()),
    ensures
        render_spec(DocV::Text(text), options) == text.push('\n'),
{
    let cmds = seq![(0nat, Mode::Broken, DocV::Text(text))];
    let mw = options.max_width as nat;
    let iw = options.indent_width as nat;
    assert(cmds.drop_last() =~= Seq::<Cmd>::empty());
    assert(Seq::<char>::empty() + text =~= text);
    assert(layout_spec(mw, iw, cmds, Seq::empty(), 0) == layout_spec(mw, iw, Seq::<Cmd>::empty(), text, text.len()));
    lemma_tidy_line(text);
}

/// On a text with no line feed, tidying keeps everything but the blanks at
/// the end, which wait.
proof fn lemma_tidy_line(text: Seq<char>)
    requires
        forall|i: int| 0 <= i < text.len() ==> text[i] != '\n',
    ensures
        tidy(text).out + tidy(text).blanks == text,
        tidy(text).blanks.len() == 0 || is_blank(text.last()),
    decreases text.len(),
{
    if text.len() > 0 {
        let front = text.drop_last();
        assert forall|i: int| 0 <= i < front.len() implies front[i] != '\n' by {
            assert(front[i] == text[i]);
        }
        lemma_tidy_line(front);
        let t = tidy(front);
        assert(t.out + t.blanks == front);
        assert(text =~= front.push(text.last()));
        if !is_blank(text.last()) {
            assert(t.newlines == 0) by {
                lemma_tidy_no_feeds(front);
            }
            assert(line_feeds(0) =~= Seq::<char>::empty());
            assert(t.out + line_feeds(0) + t.blanks + seq![text.last()] =~= text);
        } else {
            assert(t.out + t.blanks.push(text.last()) =~= text);
        }
    }
}

proof fn lemma_tidy_no_feeds(text: Seq<char>)
    requires
        forall|i: int| 0 <= i < text.len() ==> text[i] != '\n',
    ensures
        tidy(text).newlines == 0,
    decreases text.len(),
{
    if text.len() > 0 {
        let front = text.drop_last();
        assert forall|i: int| 0 <= i < front.len() implies front[i] != '\n' by {
            assert(front[i] == text[i]);
        }
        lemma_tidy_no_feeds(front);
        assert(text.last() == text[text.len() - 1]);
    }
}

/// Tidying adds no character but line feeds.
proof fn lemma_tidy_free(text: Seq<char>, c: char)
    requires
        c != '\n',
        !text.contains(c),
    ensures
        !tidy(text).out.contains(c),
        !tidy(text).blanks.contains(c),
    decreases text.len(),
{
    if text.len() > 0 {
        let front = text.drop_last();
        assert(!front.contains(c)) by {
            if front.contains(c) {
                let j = choose|j: int| 0 <= j < front.len() && front[j] == c;
                assert(text[j] == c);
            }
        }
        lemma_tidy_free(front, c);
        assert(text.last() == text[text.len() - 1]);
        let t = tidy(front);
        let d = text.last();
        if !is_blank(d) && d != '\n' {
            let next = t.out + line_feeds(min_nat(t.newlines, 2)) + t.blanks + seq![d];
            assert forall|i: int| 0 <= i < next.len() implies next[i] != c by {
                let n0 = t.out.len() as int;
                let nf = min_nat(t.newlines, 2) as int;
                if i < n0 {
                    assert(next[i] == t.out[i]);
                } else if i < n0 + nf {
                    assert(next[i] == '\n');
                } else if i < n0 + nf + t.blanks.len() {
                    assert(next[i] == t.blanks[i - n0 - nf]);
                }
            }
        } else if is_blank(d) {
            assert forall|i: int| 0 <= i < t.blanks.push(d).len() implies t.blanks.push(d)[i] != c by {
                if i < t.blanks.len() {
                    assert(t.blanks.push(d)[i] == t.blanks[i]);
                }
            }
        }
    }
}

/// Whether no text of `doc` holds `c`.
pub open spec fn doc_free_of(doc: DocV, c: char) -> bool
    decreases doc,
{
    match doc {
        DocV::Text(text) => !text.contains(c),
        DocV::Concat(children) => docs_free_of(children, c),
        DocV::Indent(inner) => doc_free_of(*inner, c),
        DocV::Outdent(inner) => doc_free_of(*inner, c),
        DocV::Group(inner) => doc_free_of(*inner, c),
        DocV::Fill { flat, broken, .. } => doc_free_of(*flat, c) && doc_free_of(*broken, c),
        DocV::IfBreak { broken, flat } => doc_free_of(*broken, c) && doc_free_of(*flat, c),
        _ => true,
    }
}

/// Whether no text of `docs` holds `c`.
pub open spec fn docs_free_of(docs: Seq<DocV>, c: char) -> bool
    decreases docs,
{
    if docs.len() == 0 {
        true
    } else {
        docs_free_of(docs.drop_last(), c) && doc_free_of(docs.last(), c)
    }
}

proof fn lemma_docs_free_of(docs: Seq<DocV>, c: char)
    ensures
        docs_free_of(docs, c) ==> forall|i: int| 0 <= i < docs.len() ==> #[trigger] doc_free_of(docs[i], c),
    decreases docs.len(),
{
    if docs.len() > 0 {
        lemma_docs_free_of(docs.drop_last(), c);
        if docs_free_of(docs, c) {
            assert forall|i: int| 0 <= i < docs.len() implies #[trigger] doc_free_of(docs[i], c) by {
                if i < docs.len() - 1 {
                    assert(docs.drop_last()[i] == docs[i]);
                }
            }
        }
    }
}

/// Laying out commands whose documents hold no `c` in their texts adds no
/// `c`, when `c` is neither a space nor a line feed.
proof fn lemma_layout_free_of(max_width: nat, indent_width: nat, cmds: Seq<Cmd>, out: Seq<char>, column: nat, c: char)
    requires
        c != ' ',
        c != '\n',
        !out.contains(c),
        forall|i: int| 0 <= i < cmds.len() ==> #[trigger] doc_free_of(cmds[i].2, c),
    ensures
        !layout_spec(max_width, indent_width, cmds, out, column).contains(c),
    decreases stack_size(cmds),
{
    if cmds.len() > 0 {
        let indent = cmds.last().0;
        let mode = cmds.last().1;
        let rest = cmds.drop_last();
        lemma_stack_push(rest, cmds.last());
        assert(rest.push(cmds.last()) =~= cmds);
        assert(doc_free_of(cmds[cmds.len() - 1].2, c));
        assert forall|i: int| 0 <= i < rest.len() implies #[trigger] doc_free_of(rest[i].2, c) by {
            assert(rest[i] == cmds[i]);
        }
        match cmds.last().2 {
            DocV::Nil => lemma_layout_free_of(max_width, indent_width, rest, out, column, c),
            DocV::Text(text) => {
                assert forall|i: int| 0 <= i < (out + text).len() implies (out + text)[i] != c by {
                    if i < out.len() {
                        assert((out + text)[i] == out[i]);
                    } else {
                        assert((out + text)[i] == text[i - out.len()]);
                    }
                }
                lemma_layout_free_of(max_width, indent_width, rest, out + text, column + text.len(), c);
            },
            DocV::Concat(children) => {
                lemma_rev_cmds(children, indent, mode, 0);
                lemma_stack_append(rest, rev_cmds(children, indent, mode));
                lemma_docs_free_of(children, c);
                let next = rest + rev_cmds(children, indent, mode);
                assert forall|i: int| 0 <= i < next.len() implies #[trigger] doc_free_of(next[i].2, c) by {
                    if i < rest.len() {
                        assert(next[i] == rest[i]);
                    } else {
                        let k = i - rest.len();
                        assert(next[i] == rev_cmds(children, indent, mode)[k]);
                        assert(doc_free_of(children[children.len() - 1 - k], c));
                    }
                }
                lemma_layout_free_of(max_width, indent_width, next, out, column, c);
            },
            DocV::Line(kind) => if kind == LineKind::Soft && mode == Mode::Flat {
                assert forall|i: int| 0 <= i < out.push(' ').len() implies out.push(' ')[i] != c by {
                    if i < out.len() {
                        assert(out.push(' ')[i] == out[i]);
                    }
                }
                lemma_layout_free_of(max_width, indent_width, rest, out.push(' '), column + 1, c);
            } else {
                let broken = line_break(out, kind, indent);
                let first = out.push('\n');
                let second = if kind == LineKind::Empty && trailing_newlines(first) < 2 {
                    first.push('\n')
                } else {
                    first
                };
                assert forall|i: int| 0 <= i < broken.len() implies broken[i] != c by {
                    if i < out.len() {
                        assert(broken[i] == out[i]);
                    } else if i < second.len() {
                        assert(broken[i] == second[i]);
                    } else {
                        assert(broken[i] == spaces(indent)[i - second.len()]);
                    }
                }
                lemma_layout_free_of(max_width, indent_width, rest, broken, indent, c);
            },
            DocV::Indent(inner) => {
                let next = rest.push((indent + indent_width, mode, *inner));
                lemma_stack_push(rest, (indent + indent_width, mode, *inner));
                assert forall|i: int| 0 <= i < next.len() implies #[trigger] doc_free_of(next[i].2, c) by {
                    if i < rest.len() {
                        assert(next[i] == rest[i]);
                    }
                }
                lemma_layout_free_of(max_width, indent_width, next, out, column, c);
            },
            DocV::Outdent(inner) => {
                let next = rest.push((sat_sub(indent, indent_width), mode, *inner));
                lemma_stack_push(rest, (sat_sub(indent, indent_width), mode, *inner));
                assert forall|i: int| 0 <= i < next.len() implies #[trigger] doc_free_of(next[i].2, c) by {
                    if i < rest.len() {
                        assert(next[i] == rest[i]);
                    }
                }
                lemma_layout_free_of(max_width, indent_width, next, out, column, c);
            },
            DocV::Group(inner) => {
                let group_mode = if has_forced_line_spec(*inner) || !fits_spec(
                    sat_sub(max_width, column),
                    rest.push((indent, Mode::Flat, *inner)),
                ) {
                    Mode::Broken
                } else {
                    Mode::Flat
                };
                let next = rest.push((indent, group_mode, *inner));
                lemma_stack_push(rest, (indent, group_mode, *inner));
                assert forall|i: int| 0 <= i < next.len() implies #[trigger] doc_free_of(next[i].2, c) by {
                    if i < rest.len() {
                        assert(next[i] == rest[i]);
                    }
                }
                lemma_layout_free_of(max_width, indent_width, next, out, column, c);
            },
            DocV::Fill { flat, broken, space_when_flat, indent_levels_on_break } => {
                let space: nat = if space_when_flat {
                    1
                } else {
                    0
                };
                if column + space <= max_width && fits_broken_prefix_spec(
                    (max_width - column - space) as nat,
                    rest.push((0, Mode::Broken, *flat)),
                ) {
                    let next = rest.push((indent, mode, *flat));
                    lemma_stack_push(rest, (indent, mode, *flat));
                    assert forall|i: int| 0 <= i < next.len() implies #[trigger] doc_free_of(next[i].2, c) by {
                        if i < rest.len() {
                            assert(next[i] == rest[i]);
                        }
                    }
                    let grown = out + spaces(space);
                    assert forall|i: int| 0 <= i < grown.len() implies grown[i] != c by {
                        if i < out.len() {
                            assert(grown[i] == out[i]);
                        }
                    }
                    lemma_layout_free_of(max_width, indent_width, next, grown, column + space, c);
                } else {
                    let new_indent = indent + indent_levels_on_break * indent_width;
                    let next = rest.push((new_indent, mode, *broken));
                    lemma_stack_push(rest, (new_indent, mode, *broken));
                    assert forall|i: int| 0 <= i < next.len() implies #[trigger] doc_free_of(next[i].2, c) by {
                        if i < rest.len() {
                            assert(next[i] == rest[i]);
                        }
                    }
                    let grown = out.push('\n') + spaces(new_indent);
                    assert forall|i: int| 0 <= i < grown.len() implies grown[i] != c by {
                        if i < out.len() {
                            assert(grown[i] == out[i]);
                        } else if i > out.len() {
                            assert(grown[i] == spaces(new_indent)[i - out.len() - 1]);
                        }
                    }
                    lemma_layout_free_of(max_width, indent_width, next, grown, new_indent, c);
                }
            },
            DocV::IfBreak { broken, flat } => {
                let chosen = if mode == Mode::Broken {
                    *broken
                } else {
                    *flat
                };
                let next = rest.push((indent, mode, chosen));
                lemma_stack_push(rest, (indent, mode, chosen));
                assert forall|i: int| 0 <= i < next.len() implies #[trigger] doc_free_of(next[i].2, c) by {
                    if i < rest.len() {
                        assert(next[i] == rest[i]);
                    }
                }
                lemma_layout_free_of(max_width, indent_width, next, out, column, c);
            },
        }
    }
}

/// Every line break the renderer writes is a single line feed: the output
/// holds a character other than a space or a line feed only where a text of
/// the document holds it. In particular a document whose texts hold no
/// carriage return renders with LF line endings only.
pub proof fn law_render_adds_only_spaces_and_line_feeds(doc: DocV, options: FormatOptions, c: char)
    requires
        c != ' ',
        c != '\n',
        doc_free_of(doc, c),
    ensures
        !render_spec(doc, options).contains(c),
{
    let cmds = seq![(0nat, Mode::Broken, doc)];
    let out = layout_spec(options.max_width as nat, options.indent_width as nat, cmds, Seq::empty(), 0);
    lemma_layout_free_of(options.max_width as nat, options.indent_width as nat, cmds, Seq::empty(), 0, c);
    let result = render_spec(doc, options);
    lemma_tidy_free(out, c);
    let kept = tidy(out).out;
    assert forall|i: int| 0 <= i < result.len() implies result[i] != c by {
        if i < kept.len() {
            assert(result[i] == kept[i]);
        }
    }
}


/// Whether `doc` is made of texts and concatenations only.
pub open spec fn plain_doc(doc: DocV) -> bool
    decreases doc,
{
    match doc {
        DocV::Nil => true,
        DocV::Text(_) => true,
        DocV::Concat(children) => plain_docs(children),
        _ => false,
    }
}

/// Whether `docs` are made of texts and concatenations only.
pub open spec fn plain_docs(docs: Seq<DocV>) -> bool
    decreases docs,
{
    if docs.len() == 0 {
        true
    } else {
        plain_docs(docs.drop_last()) && plain_doc(docs.last())
    }
}

/// The texts of `doc`, in order.
pub open spec fn doc_text(doc: DocV) -> Seq<char>
    decreases doc,
{
    match doc {
        DocV::Text(text) => text,
        DocV::Concat(children) => docs_text(children),
        _ => seq![],
    }
}

/// The texts of `docs`, in order.
pub open spec fn docs_text(docs: Seq<DocV>) -> Seq<char>
    decreases docs,
{
    if docs.len() == 0 {
        seq![]
    } else {
        docs_text(docs.drop_last()) + doc_text(docs.last())
    }
}

/// The texts of a stack of commands, in the order they are popped.
pub open spec fn stack_text(cmds: Seq<Cmd>) -> Seq<char>
    decreases cmds.len(),
{
    if cmds.len() == 0 {
        seq![]
    } else {
        doc_text(cmds.last().2) + stack_text(cmds.drop_last())
    }
}

/// Whether every document of a stack is plain.
pub open spec fn plain_stack(cmds: Seq<Cmd>) -> bool {
    forall|i: int| 0 <= i < cmds.len() ==> #[trigger] plain_doc(cmds[i].2)
}

proof fn lemma_stack_text_append(a: Seq<Cmd>, b: Seq<Cmd>)
    ensures
        stack_text(a + b) == stack_text(b) + stack_text(a),
    decreases b.len(),
{
    if b.len() == 0 {
        assert(a + b =~= a);
        assert(Seq::<char>::empty() + stack_text(a) =~= stack_text(a));
    } else {
        lemma_stack_text_append(a, b.drop_last());
        assert((a + b).drop_last() =~= a + b.drop_last());
        assert((a + b).last() == b.last());
        assert(doc_text(b.last().2) + (stack_text(b.drop_last()) + stack_text(a)) =~= (doc_text(
            b.last().2,
        ) + stack_text(b.drop_last())) + stack_text(a));
    }
}

proof fn lemma_rev_cmds_text(docs: Seq<DocV>, indent: nat, mode: Mode)
    requires
        plain_docs(docs),
    ensures
        stack_text(rev_cmds(docs, indent, mode)) == docs_text(docs),
        plain_stack(rev_cmds(docs, indent, mode)),
    decreases docs.len(),
{
    if docs.len() > 0 {
        let rest = docs.drop_last();
        lemma_rev_cmds_text(rest, indent, mode);
        let single = seq![(indent, mode, docs.last())];
        assert(rev_cmds(docs, indent, mode) =~= single + rev_cmds(rest, indent, mode));
        lemma_stack_text_append(single, rev_cmds(rest, indent, mode));
        assert(single.drop_last() =~= Seq::<Cmd>::empty());
        assert(stack_text(single.drop_last()) == Seq::<char>::empty());
        assert(single.last().2 == docs.last());
        assert(doc_text(docs.last()) + Seq::<char>::empty() =~= doc_text(docs.last()));
        assert(stack_text(single) =~= doc_text(docs.last()));
        assert forall|i: int| 0 <= i < rev_cmds(docs, indent, mode).len() implies #[trigger] plain_doc(
            rev_cmds(docs, indent, mode)[i].2,
        ) by {
            if i > 0 {
                assert(rev_cmds(docs, indent, mode)[i] == rev_cmds(rest, indent, mode)[i - 1]);
            }
        }
    }
}

proof fn lemma_plain_stack_pop(cmds: Seq<Cmd>)
    requires
        cmds.len() > 0,
        plain_stack(cmds),
    ensures
        plain_stack(cmds.drop_last()),
        plain_doc(cmds.last().2),
{
    assert(plain_doc(cmds[cmds.len() - 1].2));
    assert forall|i: int| 0 <= i < cmds.drop_last().len() implies #[trigger] plain_doc(cmds.drop_last()[i].2) by {
        assert(cmds.drop_last()[i] == cmds[i]);
    }
}

proof fn lemma_plain_stack_append(a: Seq<Cmd>, b: Seq<Cmd>)
    requires
        plain_stack(a),
        plain_stack(b),
    ensures
        plain_stack(a + b),
{
    assert forall|i: int| 0 <= i < (a + b).len() implies #[trigger] plain_doc((a + b)[i].2) by {
        if i < a.len() {
            assert((a + b)[i] == a[i]);
        } else {
            assert((a + b)[i] == b[i - a.len()]);
        }
    }
}

/// Laying out a stack of plain documents appends their texts in order.
proof fn lemma_layout_plain(max_width: nat, indent_width: nat, cmds: Seq<Cmd>, out: Seq<char>, column: nat)
    requires
        plain_stack(cmds),
    ensures
        layout_spec(max_width, indent_width, cmds, out, column) == out + stack_text(cmds),
    decreases stack_size(cmds),
{
    if cmds.len() == 0 {
        assert(out + Seq::<char>::empty() =~= out);
    } else {
        let indent = cmds.last().0;
        let mode = cmds.last().1;
        let rest = cmds.drop_last();
        lemma_stack_push(rest, cmds.last());
        assert(rest.push(cmds.last()) =~= cmds);
        lemma_plain_stack_pop(cmds);
        match cmds.last().2 {
            DocV::Nil => {
                lemma_layout_plain(max_width, indent_width, rest, out, column);
                assert(stack_text(cmds) =~= stack_text(rest));
            },
            DocV::Text(text) => {
                lemma_layout_plain(max_width, indent_width, rest, out + text, column + text.len());
                assert(out + text + stack_text(rest) =~= out + stack_text(cmds));
            },
            DocV::Concat(children) => {
                lemma_rev_cmds(children, indent, mode, 0);
                lemma_stack_append(rest, rev_cmds(children, indent, mode));
                lemma_rev_cmds_text(children, indent, mode);
                lemma_plain_stack_append(rest, rev_cmds(children, indent, mode));
                lemma_stack_text_append(rest, rev_cmds(children, indent, mode));
                lemma_layout_plain(max_width, indent_width, rest + rev_cmds(children, indent, mode), out, column);
            },
            _ => {},
        }
    }
}

/// Fitting a stack of plain documents compares the length of their texts
/// with the room left.
pub proof fn law_fits_plain(remaining: nat, cmds: Seq<Cmd>)
    requires
        plain_stack(cmds),
    ensures
        fits_spec(remaining, cmds) == (stack_text(cmds).len() <= remaining),
    decreases stack_size(cmds),
{
    if cmds.len() > 0 {
        let indent = cmds.last().0;
        let mode = cmds.last().1;
        let rest = cmds.drop_last();
        lemma_stack_push(rest, cmds.last());
        assert(rest.push(cmds.last()) =~= cmds);
        lemma_plain_stack_pop(cmds);
        match cmds.last().2 {
            DocV::Nil => law_fits_plain(remaining, rest),
            DocV::Text(text) => {
                if text.len() <= remaining {
                    law_fits_plain((remaining - text.len()) as nat, rest);
                }
            },
            DocV::Concat(children) => {
                lemma_rev_cmds(children, indent, mode, 0);
                lemma_stack_append(rest, rev_cmds(children, indent, mode));
                lemma_rev_cmds_text(children, indent, mode);
                lemma_plain_stack_append(rest, rev_cmds(children, indent, mode));
                lemma_stack_text_append(rest, rev_cmds(children, indent, mode));
                law_fits_plain(remaining, rest + rev_cmds(children, indent, mode));
            },
            _ => {},
        }
    }
}

/// A document of texts and concatenations renders as its texts in order,
/// whatever the options: no text is changed, dropped or moved.
pub proof fn law_render_plain(doc: DocV, options: FormatOptions)
    requires
        plain_doc(doc),
    ensures
        render_spec(doc, options) == normalize_spec(doc_text(doc)),
{
    let cmds = seq![(0nat, Mode::Broken, doc)];
    assert(plain_doc(cmds[0].2));
    lemma_layout_plain(options.max_width as nat, options.indent_width as nat, cmds, Seq::empty(), 0);
    assert(cmds.drop_last() =~= Seq::<Cmd>::empty());
    assert(stack_text(cmds.drop_last()) == Seq::<char>::empty());
    assert(doc_text(doc) + Seq::<char>::empty() =~= doc_text(doc));
    assert(Seq::<char>::empty() + stack_text(cmds) =~= doc_text(doc));
}

} // verus!
