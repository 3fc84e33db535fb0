//! Pieces of the document that the formatter emits between tokens and
//! comments.
use vstd::prelude::*;

use crate::document::{Doc, DocV, LineKind, copy_doc, docs_view, flatten_docs, lemma_docs_view};
use crate::field_access::same_text;
use crate::analysis::{
    ContinuationOperator, DelimiterStyle, ItemBoundary, Layout, TokenFacts, import_plan_index, ABSOLUTE_PATH_START,
    ATTACHED_OPENER, GENERIC, PREFIX_OPERATOR, TRAILING_COMMA,
};
use crate::numeral::{decimal, push_decimal};
use crate::ordering::{CompactGroup, DocumentItem, ImportGroupPlan};
use crate::token_stream::{
    Comment, CommentKind, CommentPlacement, FormatError, Gap, TokenId, TokenSpan, TokenStream, copy_comments,
};

verus! {

broadcast use vstd::std_specs::vec::group_vec_axioms;

/// What separates two emitted pieces.
#[derive(Debug, Clone, Copy, PartialEq, Eq, Structural)]
pub enum Separator {
    Nothing,
    Space,
    Soft,
    Hard,
    Empty,
}

/// `doc` nested `levels` indentation levels deeper.
pub open spec fn indented(doc: DocV, levels: nat) -> DocV
    decreases levels,
{
    if levels == 0 {
        doc
    } else {
        DocV::Indent(Box::new(indented(doc, (levels - 1) as nat)))
    }
}

/// `doc` nested `levels` indentation levels deeper.
pub fn indent_levels(doc: Doc, levels: usize) -> (result: Doc)
    ensures
        result@ == indented(doc@, levels as nat),
{
    let ghost original = doc@;
    let mut doc = doc;
    let mut i: usize = 0;
    while i < levels
        invariant
            i <= levels,
            doc@ == indented(original, i as nat),
        decreases levels - i,
    {
        doc = doc.indent();
        i += 1;
    }
    doc
}

/// The document of a separator.
pub open spec fn separator_view(separator: Separator) -> DocV {
    match separator {
        Separator::Nothing => DocV::Nil,
        Separator::Space => DocV::Text(seq![' ']),
        Separator::Soft => DocV::Line(LineKind::Soft),
        Separator::Hard => DocV::Line(LineKind::Hard),
        Separator::Empty => DocV::Line(LineKind::Empty),
    }
}

/// The document of a separator.
pub fn separator_doc(separator: Separator) -> (result: Doc)
    ensures
        result@ == separator_view(separator),
{
    match separator {
        Separator::Nothing => Doc::Nil,
        Separator::Space => Doc::space(),
        Separator::Soft => Doc::soft_line(),
        Separator::Hard => Doc::hard_line(),
        Separator::Empty => Doc::empty_line(),
    }
}

/// What goes before a comment: a space before a trailing comment (unless
/// trailing placement is ignored), a blank line or a line break where the
/// source had them or the comment spans lines, and the requested separator
/// otherwise.
pub open spec fn comment_separator_view(comment: Comment, requested: Separator, ignore_trailing: bool) -> DocV {
    if comment.placement == CommentPlacement::Trailing && !ignore_trailing {
        DocV::Text(seq![' '])
    } else if comment.newlines_before > 1 {
        DocV::Line(LineKind::Empty)
    } else if comment.newlines_before > 0 || comment.multiline {
        DocV::Line(LineKind::Hard)
    } else {
        separator_view(requested)
    }
}

/// What goes before a comment.
pub fn comment_separator(comment: &Comment, requested: Separator, ignore_trailing: bool) -> (result: Doc)
    ensures
        result@ == comment_separator_view(*comment, requested, ignore_trailing),
{
    if comment.placement == CommentPlacement::Trailing && !ignore_trailing {
        return Doc::space();
    }
    if comment.newlines_before > 1 {
        return Doc::empty_line();
    }
    if comment.newlines_before > 0 || comment.multiline {
        return Doc::hard_line();
    }
    separator_doc(requested)
}

impl Doc {
    /// This document as a group when `condition` holds, and unchanged
    /// otherwise.
    pub fn group_if(self, condition: bool) -> (result: Doc)
        ensures
            result@ == if condition {
                DocV::Group(Box::new(self@))
            } else {
                self@
            },
    {
        if condition {
            self.group()
        } else {
            self
        }
    }
}


/// Whether what follows the comment at `i` starts on the same line.
pub open spec fn followed_inline(comments: Seq<Comment>, newlines: usize, i: int) -> bool {
    if i + 1 < comments.len() {
        comments[i + 1].newlines_before == 0
    } else {
        newlines == 0
    }
}

/// The documents of the first `n` comments of a gap: each comment's
/// separator and text, and a space after an inline block comment that
/// something follows on its line.
pub open spec fn comment_docs(
    comments: Seq<Comment>,
    newlines: usize,
    requested: Separator,
    ignore_trailing: bool,
    n: nat,
) -> Seq<DocV>
    decreases n,
{
    if n == 0 {
        seq![]
    } else {
        let i = n - 1;
        let comment = comments[i];
        let before = if i == 0 {
            comment_separator_view(comment, requested, ignore_trailing)
        } else {
            comment_separator_view(comment, Separator::Hard, false)
        };
        let after = if comment.kind == CommentKind::Block && !comment.multiline && followed_inline(
            comments,
            newlines,
            i,
        ) {
            seq![DocV::Text(seq![' '])]
        } else {
            seq![]
        };
        comment_docs(comments, newlines, requested, ignore_trailing, (n - 1) as nat) + seq![
            before,
            DocV::Text(comment.text@),
        ] + after
    }
}

/// The line that ends a gap with `comments`, unless suppressed: a blank
/// line where the gap has one, a line break after a line comment, a
/// multi-line comment, or a line feed.
pub open spec fn gap_end_docs(comments: Seq<Comment>, newlines: usize, suppress_final_line: bool) -> Seq<DocV> {
    let last = comments.last();
    if suppress_final_line {
        seq![]
    } else if newlines > 1 {
        seq![DocV::Line(LineKind::Empty)]
    } else if last.kind == CommentKind::Line || last.multiline || newlines > 0 {
        seq![DocV::Line(LineKind::Hard)]
    } else {
        seq![]
    }
}

/// The document of a gap of `comments` and `newlines` line feeds between
/// two emitted pieces.
pub open spec fn gap_doc_of(
    comments: Seq<Comment>,
    newlines: usize,
    requested: Separator,
    ignore_trailing: bool,
    suppress_final_line: bool,
) -> DocV {
    if comments.len() == 0 {
        if newlines > 1 && requested != Separator::Nothing {
            DocV::Line(LineKind::Empty)
        } else {
            separator_view(requested)
        }
    } else {
        DocV::Concat(
            flatten_docs(
                comment_docs(comments, newlines, requested, ignore_trailing, comments.len())
                    + gap_end_docs(comments, newlines, suppress_final_line),
            ),
        )
    }
}

/// The document of a gap between two emitted pieces.
pub open spec fn gap_doc_view(gap: Gap, requested: Separator, ignore_trailing: bool, suppress_final_line: bool) -> DocV {
    gap_doc_of(gap.comments@, gap.newlines, requested, ignore_trailing, suppress_final_line)
}

/// Emits tokens and trivia of a token stream, counting what it emits.
pub struct Formatter<'a> {
    pub stream: &'a TokenStream,
    pub consumed_tokens: usize,
    pub consumed_comments: usize,
}

impl<'a> Formatter<'a> {
    /// A formatter that has emitted nothing yet.
    pub fn new(stream: &'a TokenStream) -> (result: Self)
        ensures
            result.stream == stream,
            result.consumed_tokens == 0,
            result.consumed_comments == 0,
    {
        Formatter { stream, consumed_tokens: 0, consumed_comments: 0 }
    }

    /// The text of the token `id`, counted as emitted.
    pub fn token(&mut self, id: TokenId) -> (result: Doc)
        requires
            id.0 < old(self).stream.tokens@.len(),
            old(self).consumed_tokens < usize::MAX,
        ensures
            result@ == DocV::Text(old(self).stream.tokens@[id.0 as int].text@),
            final(self).consumed_tokens == old(self).consumed_tokens + 1,
            final(self).consumed_comments == old(self).consumed_comments,
            final(self).stream == old(self).stream,
    {
        self.consumed_tokens = self.consumed_tokens + 1;
        Doc::Text(self.stream.token(id).text.clone())
    }

    /// The document of `gap`, with `requested` where it holds no comment.
    pub fn gap_doc(&mut self, gap: &Gap, requested: Separator) -> (result: Doc)
        requires
            old(self).consumed_comments + gap.comments@.len() <= usize::MAX,
        ensures
            result@ == gap_doc_view(*gap, requested, false, false),
            final(self).consumed_comments == old(self).consumed_comments + gap.comments@.len(),
            final(self).consumed_tokens == old(self).consumed_tokens,
            final(self).stream == old(self).stream,
    {
        self.gap_doc_with_comments(gap, requested, false, false)
    }

    /// The document of leading trivia that may move with its item:
    /// `requested` alone where it holds no comment.
    pub fn movable_leading_doc(&mut self, gap: &Gap, requested: Separator) -> (result: Doc)
        requires
            old(self).consumed_comments + gap.comments@.len() <= usize::MAX,
        ensures
            result@ == if gap.comments@.len() == 0 {
                separator_view(requested)
            } else {
                gap_doc_view(*gap, requested, false, false)
            },
            final(self).consumed_comments == old(self).consumed_comments + gap.comments@.len(),
            final(self).consumed_tokens == old(self).consumed_tokens,
            final(self).stream == old(self).stream,
    {
        if gap.comments.len() == 0 {
            separator_doc(requested)
        } else {
            self.gap_doc(gap, requested)
        }
    }

    /// The document of `gap`: each comment after its separator, then the
    /// line that ends the gap unless `suppress_final_line`; with no
    /// comments, a blank line where the gap has one and `requested` asks for
    /// a separator, and `requested` otherwise.
    #[verifier::rlimit(50)]
    pub fn gap_doc_with_comments(
        &mut self,
        gap: &Gap,
        requested: Separator,
        ignore_trailing: bool,
        suppress_final_line: bool,
    ) -> (result: Doc)
        requires
            old(self).consumed_comments + gap.comments@.len() <= usize::MAX,
        ensures
            result@ == gap_doc_view(*gap, requested, ignore_trailing, suppress_final_line),
            final(self).consumed_comments == old(self).consumed_comments + gap.comments@.len(),
            final(self).consumed_tokens == old(self).consumed_tokens,
            final(self).stream == old(self).stream,
    {
        if gap.comments.len() == 0 {
            if gap.newlines > 1 && requested != Separator::Nothing {
                return Doc::empty_line();
            }
            return separator_doc(requested);
        }
        let ghost comments = gap.comments@;
        let ghost start = self.consumed_comments;
        let mut docs: Vec<Doc> = Vec::new();
        let mut index: usize = 0;
        while index < gap.comments.len()
            invariant
                comments == gap.comments@,
                index <= comments.len(),
                self.consumed_comments == start + index,
                start + comments.len() <= usize::MAX,
                docs_view(docs@) == comment_docs(comments, gap.newlines, requested, ignore_trailing, index as nat),
                self.consumed_tokens == old(self).consumed_tokens,
                self.stream == old(self).stream,
            decreases comments.len() - index,
        {
            let comment = &gap.comments[index];
            self.consumed_comments = self.consumed_comments + 1;
            let before = if index == 0 {
                comment_separator(comment, requested, ignore_trailing)
            } else {
                comment_separator(comment, Separator::Hard, false)
            };
            let ghost base = docs@;
            docs.push(before);
            docs.push(Doc::Text(comment.text.clone()));
            let followed = if index + 1 < gap.comments.len() {
                gap.comments[index + 1].newlines_before == 0
            } else {
                gap.newlines == 0
            };
            let spaced = comment.kind == CommentKind::Block && !comment.multiline && followed;
            if spaced {
                docs.push(Doc::space());
            }
            proof {
                lemma_docs_view(docs@);
                lemma_docs_view(base);
                let expected = comment_docs(comments, gap.newlines, requested, ignore_trailing, (index + 1) as nat);
                assert(docs_view(docs@) =~= expected);
            }
            index += 1;
        }
        let ghost body = docs@;
        let last = &gap.comments[gap.comments.len() - 1];
        if suppress_final_line {
        } else if gap.newlines > 1 {
            docs.push(Doc::empty_line());
        } else if last.kind == CommentKind::Line || last.multiline || gap.newlines > 0 {
            docs.push(Doc::hard_line());
        }
        proof {
            lemma_docs_view(docs@);
            lemma_docs_view(body);
            assert(docs_view(docs@) =~= docs_view(body) + gap_end_docs(gap.comments@, gap.newlines, suppress_final_line));
        }
        Doc::concat(docs)
    }
}


// ---------------------------------------------------------------------------
// Emitting spans of tokens.

/// What emitting produced: the document or the failure, and how many
/// tokens and comments it emitted, up to the failure where there is one.
pub struct Emit {
    pub doc: Result<DocV, Seq<char>>,
    pub tokens: nat,
    pub comments: nat,
}

pub open spec fn emitted(doc: DocV, tokens: nat, comments: nat) -> Option<Emit> {
    Some(Emit { doc: Ok(doc), tokens, comments })
}

pub open spec fn failed(message: Seq<char>, tokens: nat, comments: nat) -> Option<Emit> {
    Some(Emit { doc: Err(message), tokens, comments })
}

/// `e` with `tokens` and `comments` more emitted before it.
pub open spec fn after(e: Option<Emit>, tokens: nat, comments: nat) -> Option<Emit> {
    match e {
        Some(e) => Some(Emit { doc: e.doc, tokens: e.tokens + tokens, comments: e.comments + comments }),
        None => None,
    }
}

/// `e` with its document as a group.
pub open spec fn as_group(e: Option<Emit>) -> Option<Emit> {
    match e {
        Some(Emit { doc: Ok(d), tokens, comments }) => emitted(DocV::Group(Box::new(d)), tokens, comments),
        other => other,
    }
}

pub open spec fn cat(docs: Seq<DocV>) -> DocV {
    DocV::Concat(flatten_docs(docs))
}

pub open spec fn text_of(stream: TokenStream, id: TokenId) -> Seq<char> {
    stream.tokens@[id.0 as int].text@
}

pub open spec fn facts_of(layout: Layout, id: TokenId) -> TokenFacts {
    layout.facts@[id.0 as int]
}

pub open spec fn gap_at(stream: TokenStream, id: TokenId) -> Gap {
    stream.gaps@[id.0 as int]
}

/// Whether the stream and the layout agree: one gap more than tokens, and
/// the facts of each token.
pub open spec fn layout_fits(stream: TokenStream, layout: Layout) -> bool {
    &&& stream.gaps@.len() == stream.tokens@.len() + 1
    &&& layout.facts@.len() == stream.tokens@.len()
}

pub open spec fn if_break_view(broken: DocV, flat: DocV) -> DocV {
    DocV::IfBreak { broken: Box::new(broken), flat: Box::new(flat) }
}

/// Texts after which no space goes.
pub open spec fn no_space_after(text: Seq<char>) -> bool {
    text == "("@ || text == "["@ || text == "::"@ || text == "."@ || text == "..."@ || text == ","@
}

/// Texts before which no space goes.
pub open spec fn no_space_before(text: Seq<char>) -> bool {
    text == ")"@ || text == "]"@ || text == ","@ || text == ";"@ || text == "::"@ || text == "."@ || text == ":"@
}

/// The binary operators.
pub open spec fn is_binary_operator(text: Seq<char>) -> bool {
    text == "+"@ || text == "-"@ || text == "*"@ || text == "/"@ || text == "%"@ || text == "=="@ || text
        == "!="@ || text == "<"@ || text == ">"@ || text == "<="@ || text == ">="@ || text == "&&"@ || text
        == "||"@ || text == "&"@ || text == "|"@ || text == "^"@ || text == "<<"@ || text == ">>"@
}

/// The prefix operators.
pub open spec fn is_prefix_operator_text(text: Seq<char>) -> bool {
    text == "!"@ || text == "-"@ || text == "~"@
}

/// The comparison operators.
pub open spec fn is_comparison_operator(text: Seq<char>) -> bool {
    text == "=="@ || text == "!="@ || text == "<"@ || text == ">"@ || text == "<="@ || text == ">="@
}

pub open spec fn has_flag(facts: TokenFacts, flag: u8) -> bool {
    facts.flags.0 & flag != 0
}

/// What separates the token `previous` from the token `next` that follows
/// it: the break an item boundary asks for; a line after `;` and a soft
/// line after `,`; nothing around tight punctuation, before an attached
/// opener, inside generic brackets and after a prefix operator; a soft line
/// after a binary operator; and a space otherwise.
pub open spec fn separator_spec(stream: TokenStream, layout: Layout, previous: TokenId, next: TokenId) -> Separator {
    let left = text_of(stream, previous);
    let right = text_of(stream, next);
    let lf = facts_of(layout, previous);
    let rf = facts_of(layout, next);
    if lf.item_boundary is Some {
        match lf.item_boundary.unwrap() {
            ItemBoundary::Document => Separator::Empty,
            _ => Separator::Hard,
        }
    } else if left == ";"@ {
        Separator::Hard
    } else if left == ","@ {
        Separator::Soft
    } else if right == "::"@ && has_flag(rf, ABSOLUTE_PATH_START) && !no_space_after(left) {
        Separator::Space
    } else if no_space_after(left) || no_space_before(right) {
        Separator::Nothing
    } else if is_binary_operator(left) && !has_flag(lf, GENERIC) && !has_flag(lf, PREFIX_OPERATOR) {
        Separator::Soft
    } else if right == "("@ && has_flag(rf, ATTACHED_OPENER) {
        Separator::Nothing
    } else if left == "}"@ && right == "else"@ {
        Separator::Space
    } else if ((left == "<"@ || right == "<"@ || right == ">"@ || (left == ">"@ && right == "("@)) && (has_flag(
        lf,
        GENERIC,
    ) || has_flag(rf, GENERIC))) || (is_prefix_operator_text(left) && has_flag(lf, PREFIX_OPERATOR)) {
        Separator::Nothing
    } else {
        Separator::Space
    }
}

/// Where a line breaks between two tokens: at an item boundary (a blank
/// line between document items, a line break otherwise) and after a `;`
/// that is no item boundary, and nowhere else; a `,` asks for a soft line,
/// nothing follows a token after which no space goes, and nothing comes
/// before a token before which no space goes (a `::` that starts an
/// absolute path aside).
pub proof fn law_separator_lines(stream: TokenStream, layout: Layout, previous: TokenId, next: TokenId)
    ensures
        layout.facts@[previous.0 as int].item_boundary == Some(ItemBoundary::Document) ==> separator_spec(
            stream,
            layout,
            previous,
            next,
        ) == Separator::Empty,
        layout.facts@[previous.0 as int].item_boundary matches Some(b) && b != ItemBoundary::Document
            ==> separator_spec(stream, layout, previous, next) == Separator::Hard,
        layout.facts@[previous.0 as int].item_boundary is None && stream.tokens@[previous.0 as int].text@ == ";"@
            ==> separator_spec(stream, layout, previous, next) == Separator::Hard,
        layout.facts@[previous.0 as int].item_boundary is None && stream.tokens@[previous.0 as int].text@ == ","@
            ==> separator_spec(stream, layout, previous, next) == Separator::Soft,
        layout.facts@[previous.0 as int].item_boundary is None && no_space_after(
            stream.tokens@[previous.0 as int].text@,
        ) && stream.tokens@[previous.0 as int].text@ != ","@ ==> separator_spec(stream, layout, previous, next)
            == Separator::Nothing,
        layout.facts@[previous.0 as int].item_boundary is None && stream.tokens@[previous.0 as int].text@ != ";"@
            && stream.tokens@[previous.0 as int].text@ != ","@ && no_space_before(stream.tokens@[next.0 as int].text@)
            && stream.tokens@[next.0 as int].text@ != "::"@ ==> separator_spec(stream, layout, previous, next)
            == Separator::Nothing,
        (separator_spec(stream, layout, previous, next) == Separator::Hard) == (match layout.facts@[
            previous.0 as int].item_boundary {
            Some(b) => b != ItemBoundary::Document,
            None => stream.tokens@[previous.0 as int].text@ == ";"@,
        }),
        (separator_spec(stream, layout, previous, next) == Separator::Empty) == (
        layout.facts@[previous.0 as int].item_boundary == Some(ItemBoundary::Document)),
{
    reveal_strlit(";");
    reveal_strlit(",");
    reveal_strlit("(");
    reveal_strlit("[");
    reveal_strlit(".");
    reveal_strlit("::");
    reveal_strlit("...");
    assert(","@ != ";"@) by {
        assert(","@[0] != ";"@[0]);
    }
    assert("("@ != ";"@) by {
        assert("("@[0] != ";"@[0]);
    }
    assert("["@ != ";"@) by {
        assert("["@[0] != ";"@[0]);
    }
    assert("."@ != ";"@) by {
        assert("."@[0] != ";"@[0]);
    }
    assert("::"@ != ";"@);
    assert("..."@ != ";"@);
}

/// The tokens of `span`: as a group when the span is exactly an expression
/// group (a breakable operator chain where it has continuation operators,
/// and only when `allow_outer_group` otherwise), or piece by piece.
pub open spec fn span_inner_spec(
    stream: TokenStream,
    layout: Layout,
    span: TokenSpan,
    allow_outer_group: bool,
    fuel: nat,
) -> Option<Emit>
    decreases fuel, 0nat,
{
    if fuel == 0 || span.start.0 >= stream.tokens@.len() {
        None
    } else {
        let f = (fuel - 1) as nat;
        let facts = facts_of(layout, span.start);
        let exact = match facts.group_end {
            Some(end) => end.0 + 1 == span.end.0,
            None => false,
        };
        if exact && facts.continuation_operators@.len() > 0 {
            as_group(binary_spec(stream, layout, span, f))
        } else if exact && allow_outer_group {
            grouped_spec(stream, layout, span, f)
        } else {
            span_loop_spec(stream, layout, span, span.start, seq![], 0, 0, f)
        }
    }
}

/// The tokens of `span` as one group: a chain at its continuation
/// operators, or indented.
pub open spec fn grouped_spec(stream: TokenStream, layout: Layout, span: TokenSpan, fuel: nat) -> Option<Emit>
    decreases fuel, 0nat,
{
    if fuel == 0 || span.start.0 >= stream.tokens@.len() {
        None
    } else {
        let f = (fuel - 1) as nat;
        if facts_of(layout, span.start).continuation_operators@.len() > 0 {
            as_group(binary_spec(stream, layout, span, f))
        } else {
            match span_inner_spec(stream, layout, span, false, f) {
                Some(Emit { doc: Ok(d), tokens, comments }) => emitted(
                    DocV::Group(Box::new(DocV::Indent(Box::new(d)))),
                    tokens,
                    comments,
                ),
                other => other,
            }
        }
    }
}

/// One piece of a span: its document or failure, the token it ends with,
/// whether it carries its own separator, and what it emitted.
pub struct Piece {
    pub doc: Result<DocV, Seq<char>>,
    pub end: TokenId,
    pub separated: bool,
    pub tokens: nat,
    pub comments: nat,
}

/// The piece of `span` that starts at the token `index`: an expression
/// group that ends inside the span (a chain with its own break where a
/// block follows it), a delimited list, or a single token.
pub open spec fn piece_spec(stream: TokenStream, layout: Layout, span: TokenSpan, index: TokenId, fuel: nat) -> Option<
    Piece,
>
    decreases fuel, 0nat,
{
    if fuel == 0 || index.0 >= stream.tokens@.len() {
        None
    } else {
        let f = (fuel - 1) as nat;
        let facts = facts_of(layout, index);
        let group_case = match facts.group_end {
            Some(ge) => ge.0 < span.end.0 && !(index == span.start && ge.0 + 1 == span.end.0),
            None => false,
        };
        if group_case {
            let ge = facts.group_end.unwrap();
            match stream.next_token_spec(ge) {
                None => Some(
                    Piece {
                        doc: Err("group end has no following token inside formatting span"@),
                        end: ge,
                        separated: false,
                        tokens: 0,
                        comments: 0,
                    },
                ),
                Some(next) => {
                    let gap = gap_at(stream, next);
                    let chain = facts.continuation_operators@.len() > 0 && facts_of(layout, next).delimiter_style
                        == Some(DelimiterStyle::Block) && gap.comments@.len() == 0 && gap.newlines <= 1;
                    match stream.span_spec(index, next) {
                        Err(m) => Some(Piece { doc: Err(m), end: ge, separated: false, tokens: 0, comments: 0 }),
                        Ok(sub) => {
                            let inner = if chain {
                                binary_spec(stream, layout, sub, f)
                            } else {
                                grouped_spec(stream, layout, sub, f)
                            };
                            match inner {
                                None => None,
                                Some(e) => Some(
                                    Piece {
                                        doc: match e.doc {
                                            Ok(d) => Ok(
                                                if chain {
                                                    DocV::Group(
                                                        Box::new(
                                                            cat(
                                                                seq![d, if_break_view(DocV::Line(LineKind::Hard), DocV::Text(seq![' ']))],
                                                            ),
                                                        ),
                                                    )
                                                } else {
                                                    d
                                                },
                                            ),
                                            Err(m) => Err(m),
                                        },
                                        end: ge,
                                        separated: chain,
                                        tokens: e.tokens,
                                        comments: e.comments,
                                    },
                                ),
                            }
                        },
                    }
                },
            }
        } else {
            match facts.pair {
                Some(close) => if close.0 >= span.end.0 {
                    Some(
                        Piece {
                            doc: Err("delimiter pair crosses formatting span"@),
                            end: close,
                            separated: false,
                            tokens: 0,
                            comments: 0,
                        },
                    )
                } else {
                    match delimited_spec(stream, layout, index, close, f) {
                        None => None,
                        Some(e) => Some(
                            Piece { doc: e.doc, end: close, separated: false, tokens: e.tokens, comments: e.comments },
                        ),
                    }
                },
                None => Some(
                    Piece {
                        doc: Ok(DocV::Text(text_of(stream, index))),
                        end: index,
                        separated: false,
                        tokens: 1,
                        comments: 0,
                    },
                ),
            }
        }
    }
}

/// The pieces of `span` from the token `index` on, after `docs`, with
/// `tokens` and `comments` emitted so far, each followed by the gap to the
/// next piece.
pub open spec fn span_loop_spec(
    stream: TokenStream,
    layout: Layout,
    span: TokenSpan,
    index: TokenId,
    docs: Seq<DocV>,
    tokens: nat,
    comments: nat,
    fuel: nat,
) -> Option<Emit>
    decreases fuel, 0nat,
{
    if index.0 >= span.end.0 {
        emitted(cat(docs), tokens, comments)
    } else if fuel == 0 {
        None
    } else {
        let f = (fuel - 1) as nat;
        match piece_spec(stream, layout, span, index, f) {
            None => None,
            Some(p) => match p.doc {
                Err(m) => failed(m, tokens + p.tokens, comments + p.comments),
                Ok(d) => loop_next_spec(
                    stream,
                    layout,
                    span,
                    p.end,
                    p.separated,
                    docs.push(d),
                    tokens + p.tokens,
                    comments + p.comments,
                    f,
                ),
            },
        }
    }
}

/// After a piece that ends with the token `atom_end`: the gap to the next
/// piece (unless the piece ends with its own separator) and the pieces
/// after it, or the end of the span.
pub open spec fn loop_next_spec(
    stream: TokenStream,
    layout: Layout,
    span: TokenSpan,
    atom_end: TokenId,
    separated: bool,
    docs: Seq<DocV>,
    tokens: nat,
    comments: nat,
    fuel: nat,
) -> Option<Emit>
    decreases fuel, 1nat,
{
    if atom_end.0 + 1 < span.end.0 {
        match stream.token_at_spec(TokenId((atom_end.0 + 1) as usize)) {
            None => failed("formatting span contains a non-token boundary"@, tokens, comments),
            Some(next) => if separated {
                span_loop_spec(stream, layout, span, next, docs, tokens, comments, fuel)
            } else {
                let gap = gap_at(stream, next);
                let sep = separator_spec(stream, layout, atom_end, next);
                span_loop_spec(
                    stream,
                    layout,
                    span,
                    next,
                    docs.push(gap_doc_view(gap, sep, false, false)),
                    tokens,
                    comments + gap.comments@.len(),
                    fuel,
                )
            },
        }
    } else {
        emitted(cat(docs), tokens, comments)
    }
}

/// The tokens of `span` as a chain at the continuation operators of its
/// first token: the first operand, then each operator with its operand,
/// filled after a comparison that no comment precedes, and on a line of
/// its own, indented by its depth, otherwise.
pub open spec fn binary_spec(stream: TokenStream, layout: Layout, span: TokenSpan, fuel: nat) -> Option<Emit>
    decreases fuel, 0nat,
{
    if fuel == 0 || span.start.0 >= stream.tokens@.len() {
        None
    } else {
        let f = (fuel - 1) as nat;
        let ops = facts_of(layout, span.start).continuation_operators@;
        if ops.len() == 0 {
            span_inner_spec(stream, layout, span, false, f)
        } else {
            match stream.span_spec(span.start, ops[0].token) {
                Err(m) => failed(m, 0, 0),
                Ok(sub) => match span_inner_spec(stream, layout, sub, false, f) {
                    Some(Emit { doc: Ok(d), tokens, comments }) => binary_fold_spec(
                        stream,
                        layout,
                        span,
                        ops,
                        0,
                        seq![d],
                        tokens,
                        comments,
                        f,
                    ),
                    other => other,
                },
            }
        }
    }
}

/// The document of operator `p` of a chain with its operand: filled after
/// a comparison that no comment precedes, and on a line of its own,
/// indented by its depth, otherwise.
pub open spec fn operator_spec(
    stream: TokenStream,
    layout: Layout,
    span: TokenSpan,
    ops: Seq<ContinuationOperator>,
    p: nat,
    fuel: nat,
) -> Option<Emit>
    decreases fuel, 0nat,
{
    if p >= ops.len() || fuel == 0 {
        None
    } else {
        let f = (fuel - 1) as nat;
        let op = ops[p as int];
        match stream.next_token_spec(op.token) {
            None => failed("binary operator has no operand token"@, 0, 0),
            Some(operand_start) => {
                let segment_end = if p + 1 < ops.len() {
                    ops[(p + 1) as int].token
                } else {
                    span.end
                };
                if op.token.0 >= stream.tokens@.len() || op.depth == usize::MAX {
                    None
                } else {
                    let op_doc = DocV::Text(text_of(stream, op.token));
                    let ag = gap_at(stream, operand_start);
                    let after_operator = gap_doc_view(ag, Separator::Space, false, false);
                    let c1 = ag.comments@.len();
                    match stream.span_spec(operand_start, segment_end) {
                        Err(m) => failed(m, 1, c1),
                        Ok(sub) => match span_inner_spec(stream, layout, sub, false, f) {
                            None => None,
                            Some(Emit { doc: Err(m), tokens: t, comments: c }) => failed(m, 1 + t, c1 + c),
                            Some(Emit { doc: Ok(operand), tokens: t, comments: c }) => {
                                let segment = cat(seq![op_doc, after_operator, operand]);
                                let bg = gap_at(stream, op.token);
                                if is_comparison_operator(text_of(stream, op.token)) && bg.comments@.len() == 0 {
                                    let root = p == 0 && op.depth == 0;
                                    let fill = DocV::Fill {
                                        flat: Box::new(segment),
                                        broken: Box::new(segment),
                                        space_when_flat: true,
                                        indent_levels_on_break: if root {
                                            1
                                        } else {
                                            op.depth as nat
                                        },
                                    };
                                    emitted(
                                        if root {
                                            fill
                                        } else {
                                            DocV::Indent(Box::new(fill))
                                        },
                                        1 + t,
                                        c1 + c,
                                    )
                                } else {
                                    let before = gap_doc_view(bg, Separator::Soft, false, false);
                                    emitted(
                                        indented(cat(seq![before, segment]), (op.depth + 1) as nat),
                                        1 + t,
                                        c1 + c + bg.comments@.len(),
                                    )
                                }
                            },
                        },
                    }
                }
            },
        }
    }
}

/// The operators of a chain from position `p` on, after `docs`.
pub open spec fn binary_fold_spec(
    stream: TokenStream,
    layout: Layout,
    span: TokenSpan,
    ops: Seq<ContinuationOperator>,
    p: nat,
    docs: Seq<DocV>,
    tokens: nat,
    comments: nat,
    fuel: nat,
) -> Option<Emit>
    decreases fuel, 0nat,
{
    if p >= ops.len() {
        emitted(cat(docs), tokens, comments)
    } else if fuel == 0 {
        None
    } else {
        let f = (fuel - 1) as nat;
        match operator_spec(stream, layout, span, ops, p, f) {
            None => None,
            Some(Emit { doc: Err(m), tokens: t, comments: c }) => failed(m, tokens + t, comments + c),
            Some(Emit { doc: Ok(d), tokens: t, comments: c }) => binary_fold_spec(
                stream,
                layout,
                span,
                ops,
                p + 1,
                docs.push(d),
                tokens + t,
                comments + c,
                f,
            ),
        }
    }
}

/// The separator that the gap inside an empty or full delimited list asks
/// for by style.
pub open spec fn style_separator(style: DelimiterStyle) -> Separator {
    match style {
        DelimiterStyle::Block => Separator::Hard,
        DelimiterStyle::Braced => Separator::Soft,
        _ => Separator::Nothing,
    }
}

/// Whether a gap's last comment ends its line.
pub open spec fn ends_line(gap: Gap) -> bool {
    gap.comments@.len() > 0 && (gap.comments@.last().kind == CommentKind::Line || gap.comments@.last().multiline
        || gap.newlines > 0)
}

/// The delimited list from `open` to `close`: by the opener's style, with
/// a trailing comma where the list takes one and breaks, and the comments
/// inside kept.
pub open spec fn delimited_spec(
    stream: TokenStream,
    layout: Layout,
    open: TokenId,
    close: TokenId,
    fuel: nat,
) -> Option<Emit>
    decreases fuel, 0nat,
{
    if fuel == 0 || open.0 >= stream.tokens@.len() || close.0 >= stream.tokens@.len() {
        None
    } else {
        let f = (fuel - 1) as nat;
        let style = style_of(facts_of(layout, open));
        let open_doc = DocV::Text(text_of(stream, open));
        let close_doc = DocV::Text(text_of(stream, close));
        match stream.next_token_spec(open) {
            None => failed("opening delimiter has no following token"@, 2, 0),
            Some(inner_start) => if inner_start == close {
                let g = gap_at(stream, inner_start);
                let sep = if g.comments@.len() == 0 {
                    Separator::Nothing
                } else if style == DelimiterStyle::Block {
                    Separator::Hard
                } else {
                    Separator::Soft
                };
                emitted(
                    DocV::Group(Box::new(cat(seq![open_doc, gap_doc_view(g, sep, true, false), close_doc]))),
                    2,
                    g.comments@.len(),
                )
            } else {
                after(contents_spec(stream, layout, open, close, inner_start, f), 2, 0)
            },
        }
    }
}

/// The contents of a non-empty delimited list: an import group by its
/// plan, and any other list by its style.
pub open spec fn contents_spec(
    stream: TokenStream,
    layout: Layout,
    open: TokenId,
    close: TokenId,
    inner_start: TokenId,
    fuel: nat,
) -> Option<Emit>
    decreases fuel, 0nat,
{
    if fuel == 0 || open.0 >= stream.tokens@.len() || close.0 >= stream.tokens@.len() {
        None
    } else {
        let f = (fuel - 1) as nat;
        let open_doc = DocV::Text(text_of(stream, open));
        let close_doc = DocV::Text(text_of(stream, close));
        match import_plan_index(layout.import_groups@, open) {
            Some(i) => import_group_spec(stream, layout, open_doc, close_doc, layout.import_groups@[i as int].1, f),
            None => list_spec(stream, layout, open, close, inner_start, f),
        }
    }
}

pub open spec fn style_of(facts: TokenFacts) -> DelimiterStyle {
    match facts.delimiter_style {
        Some(s) => s,
        None => DelimiterStyle::Group,
    }
}

/// The contents of a non-empty delimited list from `inner_start` to the
/// closer `close`, without the delimiters' own tokens.
pub open spec fn list_spec(
    stream: TokenStream,
    layout: Layout,
    open: TokenId,
    close: TokenId,
    inner_start: TokenId,
    fuel: nat,
) -> Option<Emit>
    decreases fuel, 0nat,
{
    if fuel == 0 || open.0 >= stream.tokens@.len() || close.0 >= stream.tokens@.len() || inner_start.0
        >= stream.tokens@.len() {
        None
    } else {
        let f = (fuel - 1) as nat;
        let facts = facts_of(layout, open);
        let style = style_of(facts);
        let trailing_comma = has_flag(facts, TRAILING_COMMA);
        match stream.previous_token_spec(close) {
            None => failed("closing delimiter has no preceding token"@, 0, 0),
            Some(previous) => {
                let source_comma = trailing_comma && text_of(stream, previous) == ","@;
                let suppress = style == DelimiterStyle::Hug;
                let inner_end = if source_comma {
                    previous
                } else {
                    close
                };
                match stream.span_spec(inner_start, inner_end) {
                    Err(m) => failed(m, 0, 0),
                    Ok(sub) => match span_inner_spec(stream, layout, sub, true, f) {
                        None => None,
                        Some(Emit { doc: Err(m), tokens: t, comments: c }) => failed(m, t, c),
                        Some(Emit { doc: Ok(inner), tokens: t, comments: c }) => {
                            let comma_gap = gap_at(stream, inner_end);
                            let comma_text = if_break_view(DocV::Text(seq![',']), DocV::Nil);
                            let comma = if source_comma {
                                cat(
                                    seq![
                                        gap_doc_view(comma_gap, Separator::Nothing, false, false),
                                        if suppress {
                                            DocV::Nil
                                        } else {
                                            comma_text
                                        },
                                    ],
                                )
                            } else if trailing_comma && !suppress {
                                comma_text
                            } else {
                                DocV::Nil
                            };
                            let t2 = if source_comma {
                                t + 1
                            } else {
                                t
                            };
                            let c2 = if source_comma {
                                c + comma_gap.comments@.len()
                            } else {
                                c
                            };
                            let lg = gap_at(stream, inner_start);
                            let tg = gap_at(stream, close);
                            let sep = style_separator(style);
                            emitted(
                                list_doc(
                                    style,
                                    DocV::Text(text_of(stream, open)),
                                    DocV::Text(text_of(stream, close)),
                                    gap_doc_view(lg, sep, true, false),
                                    inner,
                                    comma,
                                    gap_doc_view(tg, sep, false, false),
                                    lg.comments@.len() > 0 && (lg.comments@[0].newlines_before > 0
                                        || lg.comments@[0].multiline),
                                    ends_line(tg),
                                ),
                                t2,
                                c2 + lg.comments@.len() + tg.comments@.len(),
                            )
                        },
                    },
                }
            },
        }
    }
}

/// The document of a delimited list from its parts, by style: blocks and
/// braced lists indent their contents between lines; filled lists fill
/// lines, their closer on its own line when broken; grouped and vertical
/// lists indent their contents, each delimiter on its own line when broken.
pub open spec fn list_doc(
    style: DelimiterStyle,
    open_doc: DocV,
    close_doc: DocV,
    leading: DocV,
    inner: DocV,
    comma: DocV,
    trailing: DocV,
    leading_starts_line: bool,
    trailing_ends_line: bool,
) -> DocV {
    if style == DelimiterStyle::Block || style == DelimiterStyle::Braced {
        let d = cat(seq![open_doc, DocV::Indent(Box::new(cat(seq![leading, inner, comma]))), trailing, close_doc]);
        if style == DelimiterStyle::Braced {
            DocV::Group(Box::new(d))
        } else {
            d
        }
    } else if style == DelimiterStyle::Fill || style == DelimiterStyle::FillBraced || style == DelimiterStyle::Hug {
        let space_inside = style == DelimiterStyle::FillBraced;
        let closing_space = if space_inside {
            DocV::Text(seq![' '])
        } else {
            DocV::Nil
        };
        let flat_inner = cat(seq![leading, inner, trailing, closing_space, close_doc]);
        let broken_inner = cat(
            seq![leading, inner, comma, trailing, DocV::Outdent(Box::new(cat(seq![DocV::Line(LineKind::Hard), close_doc])))],
        );
        DocV::Group(
            Box::new(
                cat(
                    seq![
                        open_doc,
                        DocV::Fill {
                            flat: Box::new(flat_inner),
                            broken: Box::new(broken_inner),
                            space_when_flat: space_inside,
                            indent_levels_on_break: 1,
                        },
                    ],
                ),
            ),
        )
    } else {
        let line_after_open = if leading_starts_line {
            DocV::Nil
        } else {
            if_break_view(DocV::Line(LineKind::Hard), DocV::Nil)
        };
        let line_before_close = if trailing_ends_line {
            DocV::Nil
        } else {
            if_break_view(DocV::Line(LineKind::Hard), DocV::Nil)
        };
        DocV::Group(
            Box::new(
                cat(
                    seq![
                        open_doc,
                        DocV::Indent(Box::new(cat(seq![line_after_open, leading, inner, comma]))),
                        trailing,
                        line_before_close,
                        close_doc,
                    ],
                ),
            ),
        )
    }
}

/// `comments` with the first one starting on its line.
pub open spec fn first_inline(comments: Seq<Comment>) -> Seq<Comment> {
    if comments.len() == 0 {
        comments
    } else {
        comments.update(0, Comment { newlines_before: 0, ..comments[0] })
    }
}

/// The document of leading trivia that may move with its item.
pub open spec fn movable_view(comments: Seq<Comment>, newlines: usize, requested: Separator) -> DocV {
    if comments.len() == 0 {
        separator_view(requested)
    } else {
        gap_doc_of(comments, newlines, requested, false, false)
    }
}

/// An import group: each path with its trivia and a comma, the last comma
/// only where the group breaks.
pub open spec fn import_group_spec(
    stream: TokenStream,
    layout: Layout,
    open_doc: DocV,
    close_doc: DocV,
    plan: ImportGroupPlan,
    fuel: nat,
) -> Option<Emit>
    decreases fuel, 0nat,
{
    if fuel == 0 {
        None
    } else {
        let opening = first_inline(plan.opening.comments@);
        import_fold_spec(
            stream,
            layout,
            open_doc,
            close_doc,
            plan,
            0,
            seq![gap_doc_of(opening, plan.opening.newlines, Separator::Nothing, false, false)],
            0,
            opening.len(),
            (fuel - 1) as nat,
        )
    }
}

/// The documents of path `p` of an import group: its leading trivia, the
/// path, the trivia before its comma, the comma (the last only where the
/// group breaks) and its trailing trivia.
pub struct Parts {
    pub docs: Result<Seq<DocV>, Seq<char>>,
    pub tokens: nat,
    pub comments: nat,
}

pub open spec fn import_item_spec(stream: TokenStream, layout: Layout, plan: ImportGroupPlan, p: nat, fuel: nat) -> Option<
    Parts,
>
    decreases fuel, 0nat,
{
    let items = plan.items@;
    if p >= items.len() || fuel == 0 {
        None
    } else {
        let f = (fuel - 1) as nat;
        let item = items[p as int];
        let leading = if p == 0 {
            first_inline(item.leading.comments@)
        } else {
            item.leading.comments@
        };
        let ld = movable_view(
            leading,
            item.leading.newlines,
            if p == 0 {
                Separator::Nothing
            } else {
                Separator::Soft
            },
        );
        match span_inner_spec(stream, layout, item.span, true, f) {
            None => None,
            Some(Emit { doc: Err(m), tokens: t, comments: c }) => Some(
                Parts { docs: Err(m), tokens: t, comments: leading.len() + c },
            ),
            Some(Emit { doc: Ok(d), tokens: t, comments: c }) => {
                let before = gap_doc_view(item.before_comma, Separator::Nothing, false, false);
                let comma_tokens: nat = if item.comma is Some {
                    1
                } else {
                    0
                };
                let comma = if p + 1 < items.len() {
                    DocV::Text(seq![','])
                } else {
                    if_break_view(DocV::Text(seq![',']), DocV::Nil)
                };
                let suppress = p + 1 == items.len() && plan.closing.comments@.len() == 0 && ends_line(item.trailing);
                let trailing = gap_doc_view(item.trailing, Separator::Nothing, false, suppress);
                Some(
                    Parts {
                        docs: Ok(seq![ld, d, before, comma, trailing]),
                        tokens: t + comma_tokens,
                        comments: leading.len() + c + item.before_comma.comments@.len()
                            + item.trailing.comments@.len(),
                    },
                )
            },
        }
    }
}

/// The paths of an import group from position `p` on, after `docs`.
pub open spec fn import_fold_spec(
    stream: TokenStream,
    layout: Layout,
    open_doc: DocV,
    close_doc: DocV,
    plan: ImportGroupPlan,
    p: nat,
    docs: Seq<DocV>,
    tokens: nat,
    comments: nat,
    fuel: nat,
) -> Option<Emit>
    decreases fuel, 0nat,
{
    let items = plan.items@;
    if p >= items.len() {
        let closing = gap_doc_view(plan.closing, Separator::Nothing, false, ends_line(plan.closing));
        emitted(
            DocV::Group(
                Box::new(
                    cat(
                        seq![
                            open_doc,
                            DocV::Indent(
                                Box::new(
                                    cat(
                                        seq![
                                            if_break_view(DocV::Line(LineKind::Hard), DocV::Nil),
                                            cat(docs.push(closing)),
                                        ],
                                    ),
                                ),
                            ),
                            if_break_view(DocV::Line(LineKind::Hard), DocV::Nil),
                            close_doc,
                        ],
                    ),
                ),
            ),
            tokens,
            comments + plan.closing.comments@.len(),
        )
    } else if fuel == 0 {
        None
    } else {
        let f = (fuel - 1) as nat;
        match import_item_spec(stream, layout, plan, p, f) {
            None => None,
            Some(Parts { docs: Err(m), tokens: t, comments: c }) => failed(m, tokens + t, comments + c),
            Some(Parts { docs: Ok(parts), tokens: t, comments: c }) => import_fold_spec(
                stream,
                layout,
                open_doc,
                close_doc,
                plan,
                p + 1,
                docs + parts,
                tokens + t,
                comments + c,
                f,
            ),
        }
    }
}

proof fn lemma_import_counts(
    stream: TokenStream,
    layout: Layout,
    open_doc: DocV,
    close_doc: DocV,
    plan: ImportGroupPlan,
    p: nat,
    docs: Seq<DocV>,
    tokens: nat,
    comments: nat,
    fuel: nat,
)
    ensures
        import_fold_spec(stream, layout, open_doc, close_doc, plan, p, docs, tokens, comments, fuel) matches Some(e)
            ==> e.tokens >= tokens && e.comments >= comments,
    decreases fuel,
{
    if p < plan.items@.len() && fuel > 0 {
        let f = (fuel - 1) as nat;
        if let Some(Parts { docs: Ok(parts), tokens: t, comments: c }) = import_item_spec(stream, layout, plan, p, f) {
            lemma_import_counts(stream, layout, open_doc, close_doc, plan, p + 1, docs + parts, tokens + t, comments + c, f);
        }
    }
}

/// The separator before item `p` of the document: none before the first or
/// after trailing comments; a line between imports of one group and
/// between compact items of one kind on adjacent lines; a blank line
/// otherwise.
pub open spec fn item_separator(stream: TokenStream, items: Seq<DocumentItem>, p: int) -> Separator {
    if p == 0 {
        Separator::Nothing
    } else {
        let previous = items[p - 1];
        let item = items[p];
        if previous.trailing.comments@.len() == 0 {
            if previous.import_group is Some && item.import_group is Some && previous.import_group
                == item.import_group {
                Separator::Hard
            } else if previous.import_group is None && item.import_group is None
                && previous.compact_group is Some && previous.compact_group == item.compact_group && (
            item.span.start.0 == 0 || gap_at(stream, item.span.start).newlines <= 1) {
                Separator::Hard
            } else {
                Separator::Empty
            }
        } else {
            Separator::Nothing
        }
    }
}

/// `comments` with the first one starting on its line as a leading comment.
pub open spec fn first_leading(comments: Seq<Comment>) -> Seq<Comment> {
    if comments.len() == 0 {
        comments
    } else {
        comments.update(0, Comment { newlines_before: 0, placement: CommentPlacement::Leading, ..comments[0] })
    }
}

/// The documents of item `p` of the document: its leading trivia after
/// its separator, the item, and its trailing trivia.
pub open spec fn doc_item_spec(stream: TokenStream, layout: Layout, p: nat, fuel: nat) -> Option<Parts> {
    let items = layout.document.items@;
    if p >= items.len() || fuel == 0 || items[p as int].span.start.0 > stream.tokens@.len() {
        None
    } else {
        let f = (fuel - 1) as nat;
        let item = items[p as int];
        let sep = item_separator(stream, items, p as int);
        let leading = if p == 0 {
            first_leading(item.leading.comments@)
        } else {
            item.leading.comments@
        };
        let ld = movable_view(leading, item.leading.newlines, sep);
        match span_inner_spec(stream, layout, item.span, true, f) {
            None => None,
            Some(Emit { doc: Err(m), tokens: t, comments: c }) => Some(
                Parts { docs: Err(m), tokens: t, comments: leading.len() + c },
            ),
            Some(Emit { doc: Ok(d), tokens: t, comments: c }) => Some(
                Parts {
                    docs: Ok(seq![ld, d, gap_doc_view(item.trailing, Separator::Nothing, false, false)]),
                    tokens: t,
                    comments: leading.len() + c + item.trailing.comments@.len(),
                },
            ),
        }
    }
}

/// The items of the document from position `p` on, after `docs`.
pub open spec fn items_spec(
    stream: TokenStream,
    layout: Layout,
    p: nat,
    docs: Seq<DocV>,
    tokens: nat,
    comments: nat,
    fuel: nat,
) -> Option<Emit>
    decreases fuel,
{
    if p >= layout.document.items@.len() {
        emitted(cat(docs), tokens, comments)
    } else if fuel == 0 {
        None
    } else {
        let f = (fuel - 1) as nat;
        match doc_item_spec(stream, layout, p, f) {
            None => None,
            Some(Parts { docs: Err(m), tokens: t, comments: c }) => failed(m, tokens + t, comments + c),
            Some(Parts { docs: Ok(parts), tokens: t, comments: c }) => items_spec(
                stream,
                layout,
                p + 1,
                docs + parts,
                tokens + t,
                comments + c,
                f,
            ),
        }
    }
}

proof fn lemma_items_counts(
    stream: TokenStream,
    layout: Layout,
    p: nat,
    docs: Seq<DocV>,
    tokens: nat,
    comments: nat,
    fuel: nat,
)
    ensures
        items_spec(stream, layout, p, docs, tokens, comments, fuel) matches Some(e) ==> e.tokens >= tokens
            && e.comments >= comments,
    decreases fuel,
{
    if p < layout.document.items@.len() && fuel > 0 {
        let f = (fuel - 1) as nat;
        if let Some(Parts { docs: Ok(parts), tokens: t, comments: c }) = doc_item_spec(stream, layout, p, f) {
            lemma_items_counts(stream, layout, p + 1, docs + parts, tokens + t, comments + c, f);
        }
    }
}

/// The document of the whole stream: the header, each item with its
/// trivia, and the footer; fails unless every significant token and every
/// comment was emitted.
pub open spec fn format_spec(stream: TokenStream, layout: Layout, fuel: nat) -> Option<Result<DocV, Seq<char>>> {
    let header = layout.document.header;
    let footer = layout.document.footer;
    match items_spec(
        stream,
        layout,
        0,
        seq![gap_doc_view(header, Separator::Nothing, false, false)],
        0,
        header.comments@.len(),
        fuel,
    ) {
        None => None,
        Some(Emit { doc: Err(m), .. }) => Some(Err(m)),
        Some(Emit { doc: Ok(d), tokens, comments }) => {
            let total_comments = comments + footer.comments@.len();
            if tokens != stream.tokens@.len() {
                Some(
                    Err(
                        "emitted "@ + decimal(tokens) + " of "@ + decimal(stream.tokens@.len())
                            + " significant tokens"@,
                    ),
                )
            } else if total_comments != stream.comment_count {
                Some(
                    Err(
                        "emitted "@ + decimal(total_comments) + " of "@ + decimal(stream.comment_count as nat)
                            + " comments"@,
                    ),
                )
            } else {
                Some(Ok(cat(seq![d, gap_doc_view(footer, Separator::Nothing, false, false)])))
            }
        },
    }
}

/// Whether `result` and the counts after emitting are what `e` says, from
/// the counts before.
pub open spec fn emits(
    e: Option<Emit>,
    result: Result<Doc, FormatError>,
    tokens_before: nat,
    tokens_after: nat,
    comments_before: nat,
    comments_after: nat,
) -> bool {
    match e {
        Some(e) => {
            &&& tokens_after == tokens_before + e.tokens
            &&& comments_after == comments_before + e.comments
            &&& match (e.doc, result) {
                (Ok(d), Ok(r)) => r@ == d,
                (Err(m), Err(FormatError::Internal(r))) => r@ == m,
                _ => false,
            }
        },
        None => false,
    }
}

/// Whether emitting `e` from the counts `tokens` and `comments` stays
/// within the counters.
pub open spec fn fits_counts(e: Option<Emit>, tokens: nat, comments: nat) -> bool {
    match e {
        Some(e) => tokens + e.tokens <= usize::MAX && comments + e.comments <= usize::MAX,
        None => false,
    }
}

proof fn lemma_docs_view_push(docs: Seq<Doc>, d: Doc)
    ensures
        docs_view(docs.push(d)) == docs_view(docs).push(d@),
{
    assert(docs.push(d).drop_last() =~= docs);
}

fn cat2(a: Doc, b: Doc) -> (result: Doc)
    ensures
        result@ == cat(seq![a@, b@]),
{
    let ghost va = seq![a@, b@];
    let v = vec![a, b];
    proof {
        lemma_docs_view(v@);
        assert(docs_view(v@) =~= va);
    }
    Doc::concat(v)
}

fn cat3(a: Doc, b: Doc, c: Doc) -> (result: Doc)
    ensures
        result@ == cat(seq![a@, b@, c@]),
{
    let ghost va = seq![a@, b@, c@];
    let v = vec![a, b, c];
    proof {
        lemma_docs_view(v@);
        assert(docs_view(v@) =~= va);
    }
    Doc::concat(v)
}

fn cat4(a: Doc, b: Doc, c: Doc, d: Doc) -> (result: Doc)
    ensures
        result@ == cat(seq![a@, b@, c@, d@]),
{
    let ghost va = seq![a@, b@, c@, d@];
    let v = vec![a, b, c, d];
    proof {
        lemma_docs_view(v@);
        assert(docs_view(v@) =~= va);
    }
    Doc::concat(v)
}

fn cat5(a: Doc, b: Doc, c: Doc, d: Doc, e: Doc) -> (result: Doc)
    ensures
        result@ == cat(seq![a@, b@, c@, d@, e@]),
{
    let ghost va = seq![a@, b@, c@, d@, e@];
    let v = vec![a, b, c, d, e];
    proof {
        lemma_docs_view(v@);
        assert(docs_view(v@) =~= va);
    }
    Doc::concat(v)
}

fn internal(message: &str) -> (result: FormatError)
    ensures
        result matches FormatError::Internal(m) && m@ == message@,
{
    FormatError::Internal(String::from_str(message))
}

fn comma_if_break() -> (result: Doc)
    ensures
        result@ == if_break_view(DocV::Text(seq![',']), DocV::Nil),
{
    proof {
        reveal_strlit(",");
        assert(","@ =~= seq![',']);
    }
    Doc::if_break(Doc::text(","), Doc::Nil)
}

fn line_if_break() -> (result: Doc)
    ensures
        result@ == if_break_view(DocV::Line(LineKind::Hard), DocV::Nil),
{
    Doc::if_break(Doc::hard_line(), Doc::Nil)
}

/// A copy of `gap` whose first comment starts on its line, and when
/// `leading`, is a leading comment.
fn gap_with_first_inline(gap: &Gap, leading: bool) -> (result: Gap)
    ensures
        result.comments@ == if leading {
            first_leading(gap.comments@)
        } else {
            first_inline(gap.comments@)
        },
        result.newlines == gap.newlines,
{
    let mut comments = copy_comments(&gap.comments, 0, gap.comments.len());
    assert(comments@ =~= gap.comments@);
    if comments.len() > 0 {
        comments[0].newlines_before = 0;
        if leading {
            comments[0].placement = CommentPlacement::Leading;
        }
    }
    let result = Gap { comments, newlines: gap.newlines };
    assert(result.comments@ =~= if leading {
        first_leading(gap.comments@)
    } else {
        first_inline(gap.comments@)
    });
    result
}

fn text_in(text: &String, a: &str, b: &str, c: &str, d: &str) -> (result: bool)
    ensures
        result == (text@ == a@ || text@ == b@ || text@ == c@ || text@ == d@),
{
    same_text(text, a) || same_text(text, b) || same_text(text, c) || same_text(text, d)
}

fn no_space_after_text(text: &String) -> (result: bool)
    ensures
        result == no_space_after(text@),
{
    text_in(text, "(", "[", "::", ".") || text_in(text, "...", ",", ",", ",")
}

fn no_space_before_text(text: &String) -> (result: bool)
    ensures
        result == no_space_before(text@),
{
    text_in(text, ")", "]", ",", ";") || text_in(text, "::", ".", ":", ":")
}

fn binary_operator_text(text: &String) -> (result: bool)
    ensures
        result == is_binary_operator(text@),
{
    text_in(text, "+", "-", "*", "/") || text_in(text, "%", "==", "!=", "<") || text_in(text, ">", "<=", ">=", "&&")
        || text_in(text, "||", "&", "|", "^") || text_in(text, "<<", ">>", ">>", ">>")
}

fn comparison_operator_text(text: &String) -> (result: bool)
    ensures
        result == is_comparison_operator(text@),
{
    text_in(text, "==", "!=", "<", ">") || text_in(text, "<=", ">=", ">=", ">=")
}

/// What separates the token `previous` from the token `next`.
pub fn separator(stream: &TokenStream, layout: &Layout, previous: TokenId, next: TokenId) -> (result: Separator)
    requires
        layout_fits(*stream, *layout),
        previous.0 < stream.tokens@.len(),
        next.0 < stream.tokens@.len(),
    ensures
        result == separator_spec(*stream, *layout, previous, next),
{
    let left = &stream.token(previous).text;
    let right = &stream.token(next).text;
    let lf = layout.facts(previous);
    let rf = layout.facts(next);
    if let Some(boundary) = lf.item_boundary {
        return match boundary {
            ItemBoundary::Document => Separator::Empty,
            _ => Separator::Hard,
        };
    }
    if same_text(left, ";") {
        return Separator::Hard;
    }
    if same_text(left, ",") {
        return Separator::Soft;
    }
    if same_text(right, "::") && rf.is_absolute_path_start() && !no_space_after_text(left) {
        return Separator::Space;
    }
    if no_space_after_text(left) || no_space_before_text(right) {
        return Separator::Nothing;
    }
    if binary_operator_text(left) && !lf.is_generic() && !lf.is_prefix_operator() {
        return Separator::Soft;
    }
    if same_text(right, "(") && rf.is_attached_opener() {
        return Separator::Nothing;
    }
    if same_text(left, "}") && same_text(right, "else") {
        return Separator::Space;
    }
    let angle = same_text(left, "<") || same_text(right, "<") || same_text(right, ">") || (same_text(left, ">")
        && same_text(right, "("));
    if (angle && (lf.is_generic() || rf.is_generic())) || (text_in(left, "!", "-", "~", "~")
        && lf.is_prefix_operator()) {
        Separator::Nothing
    } else {
        Separator::Space
    }
}

fn comma_text() -> (result: Doc)
    ensures
        result@ == DocV::Text(seq![',']),
{
    proof {
        reveal_strlit(",");
        assert(","@ =~= seq![',']);
    }
    Doc::text(",")
}

fn ends_line_of(gap: &Gap) -> (result: bool)
    ensures
        result == ends_line(*gap),
{
    let n = gap.comments.len();
    n > 0 && (gap.comments[n - 1].kind == CommentKind::Line || gap.comments[n - 1].multiline || gap.newlines > 0)
}

fn same_import_group(a: Option<usize>, b: Option<usize>) -> (result: bool)
    ensures
        result == (a == b),
{
    match (a, b) {
        (Some(x), Some(y)) => x == y,
        (None, None) => true,
        _ => false,
    }
}

fn same_compact_group(a: Option<CompactGroup>, b: Option<CompactGroup>) -> (result: bool)
    ensures
        result == (a == b),
{
    match (a, b) {
        (Some(x), Some(y)) => x == y,
        (None, None) => true,
        _ => false,
    }
}

/// The separator before item `p` of the document.
fn item_separator_of(stream: &TokenStream, items: &Vec<DocumentItem>, p: usize) -> (result: Separator)
    requires
        p < items@.len(),
        stream.gaps@.len() == stream.tokens@.len() + 1,
        items@[p as int].span.start.0 <= stream.tokens@.len(),
    ensures
        result == item_separator(*stream, items@, p as int),
{
    if p == 0 {
        return Separator::Nothing;
    }
    let previous = &items[p - 1];
    let item = &items[p];
    if previous.trailing.comments.len() == 0 {
        if previous.import_group.is_some() && item.import_group.is_some() && same_import_group(previous.import_group, item.import_group) {
            Separator::Hard
        } else if previous.import_group.is_none() && item.import_group.is_none() && previous.compact_group.is_some()
            && same_compact_group(previous.compact_group, item.compact_group) && (item.span.start.0 == 0
            || stream.gap_before(item.span.start).newlines <= 1) {
            Separator::Hard
        } else {
            Separator::Empty
        }
    } else {
        Separator::Nothing
    }
}

proof fn lemma_loop_step(
    stream: TokenStream,
    layout: Layout,
    span: TokenSpan,
    index: TokenId,
    docs: Seq<DocV>,
    tokens: nat,
    comments: nat,
    fuel: nat,
)
    requires
        index.0 < span.end.0,
        span_loop_spec(stream, layout, span, index, docs, tokens, comments, fuel) is Some,
    ensures
        fuel > 0,
        piece_spec(stream, layout, span, index, (fuel - 1) as nat) matches Some(p) && match p.doc {
            Err(m) => span_loop_spec(stream, layout, span, index, docs, tokens, comments, fuel) == failed(
                m,
                tokens + p.tokens,
                comments + p.comments,
            ),
            Ok(d) => span_loop_spec(stream, layout, span, index, docs, tokens, comments, fuel) == loop_next_spec(
                stream,
                layout,
                span,
                p.end,
                p.separated,
                docs.push(d),
                tokens + p.tokens,
                comments + p.comments,
                (fuel - 1) as nat,
            ),
        },
{
}

proof fn lemma_fold_counts(
    stream: TokenStream,
    layout: Layout,
    span: TokenSpan,
    ops: Seq<ContinuationOperator>,
    p: nat,
    docs: Seq<DocV>,
    tokens: nat,
    comments: nat,
    fuel: nat,
)
    ensures
        binary_fold_spec(stream, layout, span, ops, p, docs, tokens, comments, fuel) matches Some(e) ==> e.tokens
            >= tokens && e.comments >= comments,
    decreases fuel,
{
    if p < ops.len() && fuel > 0 {
        let f = (fuel - 1) as nat;
        if let Some(Emit { doc: Ok(d), tokens: t, comments: c }) = operator_spec(stream, layout, span, ops, p, f) {
            lemma_fold_counts(stream, layout, span, ops, p + 1, docs.push(d), tokens + t, comments + c, f);
        }
    }
}

proof fn lemma_loop_counts(
    stream: TokenStream,
    layout: Layout,
    span: TokenSpan,
    index: TokenId,
    docs: Seq<DocV>,
    tokens: nat,
    comments: nat,
    fuel: nat,
)
    ensures
        span_loop_spec(stream, layout, span, index, docs, tokens, comments, fuel) matches Some(e) ==> e.tokens
            >= tokens && e.comments >= comments,
    decreases fuel, 0nat,
{
    if index.0 < span.end.0 && fuel > 0 {
        let f = (fuel - 1) as nat;
        if let Some(p) = piece_spec(stream, layout, span, index, f) {
            if let Ok(d) = p.doc {
                lemma_next_counts(stream, layout, span, p.end, p.separated, docs.push(d), tokens + p.tokens, comments + p.comments, f);
            }
        }
    }
}

proof fn lemma_next_counts(
    stream: TokenStream,
    layout: Layout,
    span: TokenSpan,
    atom_end: TokenId,
    separated: bool,
    docs: Seq<DocV>,
    tokens: nat,
    comments: nat,
    fuel: nat,
)
    ensures
        loop_next_spec(stream, layout, span, atom_end, separated, docs, tokens, comments, fuel) matches Some(e)
            ==> e.tokens >= tokens && e.comments >= comments,
    decreases fuel, 1nat,
{
    if atom_end.0 + 1 < span.end.0 {
        if let Some(next) = stream.token_at_spec(TokenId((atom_end.0 + 1) as usize)) {
            if separated {
                lemma_loop_counts(stream, layout, span, next, docs, tokens, comments, fuel);
            } else {
                let gap = gap_at(stream, next);
                let sep = separator_spec(stream, layout, atom_end, next);
                lemma_loop_counts(
                    stream,
                    layout,
                    span,
                    next,
                    docs.push(gap_doc_view(gap, sep, false, false)),
                    tokens,
                    comments + gap.comments@.len(),
                    fuel,
                );
            }
        }
    }
}

/// Whether emitting the tokens of `span` ends without an out-of-range
/// token or gap.
pub open spec fn span_inner_defined(stream: TokenStream, layout: Layout, span: TokenSpan, allow_outer_group: bool) -> bool {
    exists|fuel: nat| #[trigger] span_inner_spec(stream, layout, span, allow_outer_group, fuel) is Some
}

/// What emitting the tokens of `span` produces.
pub open spec fn span_inner_result(stream: TokenStream, layout: Layout, span: TokenSpan, allow_outer_group: bool) -> Option<
    Emit,
> {
    span_inner_spec(
        stream,
        layout,
        span,
        allow_outer_group,
        choose|fuel: nat| #[trigger] span_inner_spec(stream, layout, span, allow_outer_group, fuel) is Some,
    )
}

/// Whether emitting the delimited list from `open` to `close` ends without
/// an out-of-range token or gap.
pub open spec fn delimited_defined(stream: TokenStream, layout: Layout, open: TokenId, close: TokenId) -> bool {
    exists|fuel: nat| #[trigger] delimited_spec(stream, layout, open, close, fuel) is Some
}

/// What emitting the delimited list from `open` to `close` produces.
pub open spec fn delimited_result(stream: TokenStream, layout: Layout, open: TokenId, close: TokenId) -> Option<Emit> {
    delimited_spec(
        stream,
        layout,
        open,
        close,
        choose|fuel: nat| #[trigger] delimited_spec(stream, layout, open, close, fuel) is Some,
    )
}


fn list_document(
    style: DelimiterStyle,
    open_doc: Doc,
    close_doc: Doc,
    leading: Doc,
    inner: Doc,
    comma: Doc,
    trailing: Doc,
    leading_starts_line: bool,
    trailing_ends_line: bool,
) -> (result: Doc)
    ensures
        result@ == list_doc(
            style,
            open_doc@,
            close_doc@,
            leading@,
            inner@,
            comma@,
            trailing@,
            leading_starts_line,
            trailing_ends_line,
        ),
{
    match style {
        DelimiterStyle::Block | DelimiterStyle::Braced => {
            let d = cat4(open_doc, cat3(leading, inner, comma).indent(), trailing, close_doc);
            d.group_if(style == DelimiterStyle::Braced)
        },
        DelimiterStyle::Fill | DelimiterStyle::FillBraced | DelimiterStyle::Hug => {
            let space_inside = style == DelimiterStyle::FillBraced;
            let closing_space = if space_inside {
                Doc::space()
            } else {
                Doc::Nil
            };
            let flat_inner = cat5(
                copy_doc(&leading),
                copy_doc(&inner),
                copy_doc(&trailing),
                closing_space,
                copy_doc(&close_doc),
            );
            let broken_inner = cat5(leading, inner, comma, trailing, cat2(Doc::hard_line(), close_doc).outdent());
            cat2(open_doc, Doc::fill_choice(flat_inner, broken_inner, space_inside, 1)).group()
        },
        DelimiterStyle::Group | DelimiterStyle::Vertical => {
            let line_after_open = if leading_starts_line {
                Doc::Nil
            } else {
                line_if_break()
            };
            let line_before_close = if trailing_ends_line {
                Doc::Nil
            } else {
                line_if_break()
            };
            cat5(
                open_doc,
                cat4(line_after_open, leading, inner, comma).indent(),
                trailing,
                line_before_close,
                close_doc,
            ).group()
        },
    }
}

impl<'a> Formatter<'a> {
    fn span_inner_with_fuel(
        &mut self,
        layout: &Layout,
        span: TokenSpan,
        allow_outer_group: bool,
        Ghost(fuel): Ghost<nat>,
    ) -> (result: Result<Doc, FormatError>)
        requires
            layout_fits(*old(self).stream, *layout),
            fits_counts(
                span_inner_spec(*old(self).stream, *layout, span, allow_outer_group, fuel),
                old(self).consumed_tokens as nat,
                old(self).consumed_comments as nat,
            ),
        ensures
            emits(
                span_inner_spec(*old(self).stream, *layout, span, allow_outer_group, fuel),
                result,
                old(self).consumed_tokens as nat,
                final(self).consumed_tokens as nat,
                old(self).consumed_comments as nat,
                final(self).consumed_comments as nat,
            ),
            final(self).stream == old(self).stream,
        decreases fuel, 2nat,
    {
        let ghost f = (fuel - 1) as nat;
        let facts = layout.facts(span.start);
        let exact = match facts.group_end {
            Some(end) => end.0 < span.end.0 && span.end.0 - end.0 == 1,
            None => false,
        };
        if exact && facts.continuation_operators.len() > 0 {
            return match self.binary_with_fuel(layout, span, Ghost(f)) {
                Ok(d) => Ok(d.group()),
                Err(e) => Err(e),
            };
        }
        if exact && allow_outer_group {
            return self.grouped_with_fuel(layout, span, Ghost(f));
        }
        self.pieces_with_fuel(layout, span, Ghost(f))
    }

    fn grouped_with_fuel(&mut self, layout: &Layout, span: TokenSpan, Ghost(fuel): Ghost<nat>) -> (result: Result<
        Doc,
        FormatError,
    >)
        requires
            layout_fits(*old(self).stream, *layout),
            fits_counts(
                grouped_spec(*old(self).stream, *layout, span, fuel),
                old(self).consumed_tokens as nat,
                old(self).consumed_comments as nat,
            ),
        ensures
            emits(
                grouped_spec(*old(self).stream, *layout, span, fuel),
                result,
                old(self).consumed_tokens as nat,
                final(self).consumed_tokens as nat,
                old(self).consumed_comments as nat,
                final(self).consumed_comments as nat,
            ),
            final(self).stream == old(self).stream,
        decreases fuel, 2nat,
    {
        let ghost f = (fuel - 1) as nat;
        if layout.facts(span.start).continuation_operators.len() > 0 {
            return match self.binary_with_fuel(layout, span, Ghost(f)) {
                Ok(d) => Ok(d.group()),
                Err(e) => Err(e),
            };
        }
        match self.span_inner_with_fuel(layout, span, false, Ghost(f)) {
            Ok(d) => Ok(d.indent().group()),
            Err(e) => Err(e),
        }
    }

    fn piece_with_fuel(
        &mut self,
        layout: &Layout,
        span: TokenSpan,
        index: TokenId,
        Ghost(fuel): Ghost<nat>,
    ) -> (result: Result<(Doc, TokenId, bool), FormatError>)
        requires
            layout_fits(*old(self).stream, *layout),
            piece_spec(*old(self).stream, *layout, span, index, fuel) matches Some(p) && old(self).consumed_tokens
                + p.tokens <= usize::MAX && old(self).consumed_comments + p.comments <= usize::MAX,
        ensures
            piece_spec(*old(self).stream, *layout, span, index, fuel) matches Some(p) && final(self).consumed_tokens
                == old(self).consumed_tokens + p.tokens && final(self).consumed_comments == old(self).consumed_comments
                + p.comments && match (p.doc, result) {
                (Ok(d), Ok((r, end, separated))) => r@ == d && end == p.end && separated == p.separated,
                (Err(m), Err(FormatError::Internal(r))) => r@ == m,
                _ => false,
            },
            final(self).stream == old(self).stream,
        decreases fuel, 2nat,
    {
        let stream = self.stream;
        let ghost f = (fuel - 1) as nat;
        let facts = layout.facts(index);
        let group_case = match facts.group_end {
            Some(ge) => ge.0 < span.end.0 && !(index == span.start && span.end.0 - ge.0 == 1),
            None => false,
        };
        if group_case {
            let ge = facts.group_end.unwrap();
            let next = match stream.next_token(ge) {
                Some(next) => next,
                None => {
                    return Err(internal("group end has no following token inside formatting span"));
                },
            };
            let gap = stream.gap_before(next);
            let chain = facts.continuation_operators.len() > 0 && match layout.facts(next).delimiter_style {
                Some(DelimiterStyle::Block) => true,
                _ => false,
            } && gap.comments.len() == 0 && gap.newlines <= 1;
            let sub = match stream.span(index, next) {
                Ok(sub) => sub,
                Err(e) => {
                    return Err(e);
                },
            };
            if chain {
                match self.binary_with_fuel(layout, sub, Ghost(f)) {
                    Ok(d) => Ok((cat2(d, Doc::if_break(Doc::hard_line(), Doc::space())).group(), ge, true)),
                    Err(e) => Err(e),
                }
            } else {
                match self.grouped_with_fuel(layout, sub, Ghost(f)) {
                    Ok(d) => Ok((d, ge, false)),
                    Err(e) => Err(e),
                }
            }
        } else if let Some(close) = facts.pair {
            if close.0 >= span.end.0 {
                return Err(internal("delimiter pair crosses formatting span"));
            }
            match self.delimited_with_fuel(layout, index, close, Ghost(f)) {
                Ok(d) => Ok((d, close, false)),
                Err(e) => Err(e),
            }
        } else {
            Ok((self.token(index), index, false))
        }
    }

    /// One step of the pieces of `span`: the piece at `index` and the gap
    /// after it; the token of the next piece, or none at the end.
    #[verifier::spinoff_prover]
    #[verifier::rlimit(100)]
    fn advance_with_fuel(
        &mut self,
        layout: &Layout,
        span: TokenSpan,
        index: TokenId,
        docs: &mut Vec<Doc>,
        Ghost(tokens): Ghost<nat>,
        Ghost(comments): Ghost<nat>,
        Ghost(fuel): Ghost<nat>,
    ) -> (result: Result<Option<TokenId>, FormatError>)
        requires
            layout_fits(*old(self).stream, *layout),
            index.0 < span.end.0,
            tokens <= old(self).consumed_tokens,
            comments <= old(self).consumed_comments,
            fits_counts(
                span_loop_spec(*old(self).stream, *layout, span, index, docs_view(old(docs)@), tokens, comments, fuel),
                (old(self).consumed_tokens - tokens) as nat,
                (old(self).consumed_comments - comments) as nat,
            ),
        ensures
            final(self).stream == old(self).stream,
            old(self).consumed_tokens <= final(self).consumed_tokens,
            old(self).consumed_comments <= final(self).consumed_comments,
            ({
                let before = span_loop_spec(
                    *old(self).stream,
                    *layout,
                    span,
                    index,
                    docs_view(old(docs)@),
                    tokens,
                    comments,
                    fuel,
                );
                let t = (tokens + final(self).consumed_tokens - old(self).consumed_tokens) as nat;
                let c = (comments + final(self).consumed_comments - old(self).consumed_comments) as nat;
                match result {
                    Err(FormatError::Internal(m)) => before == failed(m@, t, c),
                    Err(_) => false,
                    Ok(None) => before == emitted(cat(docs_view(final(docs)@)), t, c),
                    Ok(Some(next)) => fuel > 0 && before == span_loop_spec(
                        *old(self).stream,
                        *layout,
                        span,
                        next,
                        docs_view(final(docs)@),
                        t,
                        c,
                        (fuel - 1) as nat,
                    ),
                }
            }),
        decreases fuel, 3nat,
    {
        let stream = self.stream;
        let ghost f = (fuel - 1) as nat;
        let ghost before = docs@;
        let ghost t1 = tokens;
        let ghost c1 = comments;
        proof {
            lemma_loop_step(*stream, *layout, span, index, docs_view(before), tokens, comments, fuel);
            if let Some(p) = piece_spec(*stream, *layout, span, index, f) {
                if let Ok(d) = p.doc {
                    lemma_next_counts(
                        *stream,
                        *layout,
                        span,
                        p.end,
                        p.separated,
                        docs_view(before).push(d),
                        t1 + p.tokens,
                        c1 + p.comments,
                        f,
                    );
                }
            }
        }
        let (d, atom_end, separated) = match self.piece_with_fuel(layout, span, index, Ghost(f)) {
            Ok(found) => found,
            Err(e) => {
                return Err(e);
            },
        };
        let ghost dv = d@;
        docs.push(d);
        proof {
            lemma_docs_view_push(before, docs@.last());
            assert(docs@ =~= before.push(docs@.last()));
        }
        if atom_end.0 < span.end.0 && span.end.0 - atom_end.0 > 1 {
            let next = match stream.token_at(TokenId(atom_end.0 + 1)) {
                Some(next) => next,
                None => {
                    return Err(internal("formatting span contains a non-token boundary"));
                },
            };
            if !separated {
                let ghost mid = docs@;
                let sep = separator(stream, layout, atom_end, next);
                proof {
                    let g = gap_at(*stream, next);
                    lemma_loop_counts(
                        *stream,
                        *layout,
                        span,
                        next,
                        docs_view(mid).push(gap_doc_view(g, sep, false, false)),
                        (tokens + self.consumed_tokens - old(self).consumed_tokens) as nat,
                        (comments + self.consumed_comments - old(self).consumed_comments + g.comments@.len()) as nat,
                        f,
                    );
                }
                let gd = self.gap_doc(stream.gap_before(next), sep);
                docs.push(gd);
                proof {
                    lemma_docs_view_push(mid, gd);
                    assert(docs@ =~= mid.push(gd));
                }
            }
            Ok(Some(next))
        } else {
            Ok(None)
        }
    }

    fn pieces_with_fuel(&mut self, layout: &Layout, span: TokenSpan, Ghost(fuel): Ghost<nat>) -> (result: Result<
        Doc,
        FormatError,
    >)
        requires
            layout_fits(*old(self).stream, *layout),
            fits_counts(
                span_loop_spec(*old(self).stream, *layout, span, span.start, seq![], 0, 0, fuel),
                old(self).consumed_tokens as nat,
                old(self).consumed_comments as nat,
            ),
        ensures
            emits(
                span_loop_spec(*old(self).stream, *layout, span, span.start, seq![], 0, 0, fuel),
                result,
                old(self).consumed_tokens as nat,
                final(self).consumed_tokens as nat,
                old(self).consumed_comments as nat,
                final(self).consumed_comments as nat,
            ),
            final(self).stream == old(self).stream,
        decreases fuel, 4nat,
    {
        let stream = self.stream;
        let ghost total = span_loop_spec(*stream, *layout, span, span.start, seq![], 0, 0, fuel);
        let ghost t0 = self.consumed_tokens as nat;
        let ghost c0 = self.consumed_comments as nat;
        let mut docs: Vec<Doc> = Vec::new();
        let mut index = span.start;
        let ghost mut lf = fuel;
        proof {
            assert(docs_view(docs@) =~= seq![]);
        }
        loop
            invariant
                self.stream == stream,
                stream == old(self).stream,
                layout_fits(*stream, *layout),
                t0 == old(self).consumed_tokens,
                c0 == old(self).consumed_comments,
                t0 <= self.consumed_tokens,
                c0 <= self.consumed_comments,
                lf <= fuel,
                total == span_loop_spec(*stream, *layout, span, span.start, seq![], 0, 0, fuel),
                fits_counts(total, t0, c0),
                total == span_loop_spec(
                    *stream,
                    *layout,
                    span,
                    index,
                    docs_view(docs@),
                    (self.consumed_tokens - t0) as nat,
                    (self.consumed_comments - c0) as nat,
                    lf,
                ),
            decreases lf,
        {
            if index.0 >= span.end.0 {
                return Ok(Doc::concat(docs));
            }
            let ghost t1 = (self.consumed_tokens - t0) as nat;
            let ghost c1 = (self.consumed_comments - c0) as nat;
            match self.advance_with_fuel(layout, span, index, &mut docs, Ghost(t1), Ghost(c1), Ghost(lf)) {
                Err(e) => {
                    return Err(e);
                },
                Ok(None) => {
                    return Ok(Doc::concat(docs));
                },
                Ok(Some(next)) => {
                    index = next;
                    proof {
                        lf = (lf - 1) as nat;
                    }
                },
            }
        }
    }

    #[verifier::spinoff_prover]
    #[verifier::rlimit(100)]
    fn binary_with_fuel(&mut self, layout: &Layout, span: TokenSpan, Ghost(fuel): Ghost<nat>) -> (result: Result<
        Doc,
        FormatError,
    >)
        requires
            layout_fits(*old(self).stream, *layout),
            fits_counts(
                binary_spec(*old(self).stream, *layout, span, fuel),
                old(self).consumed_tokens as nat,
                old(self).consumed_comments as nat,
            ),
        ensures
            emits(
                binary_spec(*old(self).stream, *layout, span, fuel),
                result,
                old(self).consumed_tokens as nat,
                final(self).consumed_tokens as nat,
                old(self).consumed_comments as nat,
                final(self).consumed_comments as nat,
            ),
            final(self).stream == old(self).stream,
        decreases fuel, 2nat,
    {
        let stream = self.stream;
        let ghost f = (fuel - 1) as nat;
        let ops = &layout.facts(span.start).continuation_operators;
        if ops.len() == 0 {
            return self.span_inner_with_fuel(layout, span, false, Ghost(f));
        }
        let sub = match stream.span(span.start, ops[0].token) {
            Ok(sub) => sub,
            Err(e) => {
                return Err(e);
            },
        };
        proof {
            if let Some(Emit { doc: Ok(d), tokens: t, comments: c }) = span_inner_spec(*stream, *layout, sub, false, f) {
                lemma_fold_counts(*stream, *layout, span, ops@, 0, seq![d], t, c, f);
            }
        }
        let first = match self.span_inner_with_fuel(layout, sub, false, Ghost(f)) {
            Ok(d) => d,
            Err(e) => {
                return Err(e);
            },
        };
        let ghost total = binary_spec(*stream, *layout, span, fuel);
        let ghost t0 = old(self).consumed_tokens as nat;
        let ghost c0 = old(self).consumed_comments as nat;
        let mut docs: Vec<Doc> = Vec::new();
        let ghost fv = first@;
        docs.push(first);
        proof {
            lemma_docs_view_push(Seq::<Doc>::empty(), docs@[0]);
            assert(docs@ =~= Seq::<Doc>::empty().push(docs@[0]));
            assert(docs_view(Seq::<Doc>::empty()) =~= seq![]);
        }
        let mut p: usize = 0;
        let ghost mut lf = f;
        loop
            invariant
                self.stream == stream,
                stream == old(self).stream,
                layout_fits(*stream, *layout),
                *ops == facts_of(*layout, span.start).continuation_operators,
                total == binary_spec(*stream, *layout, span, fuel),
                t0 == old(self).consumed_tokens,
                c0 == old(self).consumed_comments,
                t0 <= self.consumed_tokens,
                c0 <= self.consumed_comments,
                lf < fuel,
                fits_counts(total, t0, c0),
                total == binary_fold_spec(
                    *stream,
                    *layout,
                    span,
                    ops@,
                    p as nat,
                    docs_view(docs@),
                    (self.consumed_tokens - t0) as nat,
                    (self.consumed_comments - c0) as nat,
                    lf,
                ),
            decreases lf,
        {
            if p >= ops.len() {
                return Ok(Doc::concat(docs));
            }
            let ghost g = (lf - 1) as nat;
            let ghost before = docs@;
            let ghost t1 = (self.consumed_tokens - t0) as nat;
            let ghost c1 = (self.consumed_comments - c0) as nat;
            proof {
                if let Some(Emit { doc: Ok(d), tokens: t, comments: c }) = operator_spec(*stream, *layout, span, ops@, p as nat, g) {
                    lemma_fold_counts(*stream, *layout, span, ops@, (p + 1) as nat, docs_view(before).push(d), t1 + t, c1 + c, g);
                }
            }
            let d = match self.operator_with_fuel(layout, span, ops, p, Ghost(g)) {
                Ok(d) => d,
                Err(e) => {
                    return Err(e);
                },
            };
            let ghost dv = d@;
            docs.push(d);
            proof {
                lemma_docs_view_push(before, docs@.last());
                assert(docs@ =~= before.push(docs@.last()));
                assert(docs_view(docs@) == docs_view(before).push(dv));
                lf = g;
            }
            p = p + 1;
        }
    }

    fn operator_with_fuel(
        &mut self,
        layout: &Layout,
        span: TokenSpan,
        ops: &Vec<ContinuationOperator>,
        p: usize,
        Ghost(fuel): Ghost<nat>,
    ) -> (result: Result<Doc, FormatError>)
        requires
            layout_fits(*old(self).stream, *layout),
            fits_counts(
                operator_spec(*old(self).stream, *layout, span, ops@, p as nat, fuel),
                old(self).consumed_tokens as nat,
                old(self).consumed_comments as nat,
            ),
        ensures
            emits(
                operator_spec(*old(self).stream, *layout, span, ops@, p as nat, fuel),
                result,
                old(self).consumed_tokens as nat,
                final(self).consumed_tokens as nat,
                old(self).consumed_comments as nat,
                final(self).consumed_comments as nat,
            ),
            final(self).stream == old(self).stream,
        decreases fuel, 2nat,
    {
        let stream = self.stream;
        let ghost g = (fuel - 1) as nat;
        let op = ops[p];
        let operand_start = match stream.next_token(op.token) {
            Some(o) => o,
            None => {
                return Err(internal("binary operator has no operand token"));
            },
        };
        let segment_end = if ops.len() - p > 1 {
            ops[p + 1].token
        } else {
            span.end
        };
        let op_doc = self.token(op.token);
        let after_operator = self.gap_doc(stream.gap_before(operand_start), Separator::Space);
        let sub = match stream.span(operand_start, segment_end) {
            Ok(sub) => sub,
            Err(e) => {
                return Err(e);
            },
        };
        let operand = match self.span_inner_with_fuel(layout, sub, false, Ghost(g)) {
            Ok(d) => d,
            Err(e) => {
                return Err(e);
            },
        };
        let segment = cat3(op_doc, after_operator, operand);
        let bg = stream.gap_before(op.token);
        if comparison_operator_text(&stream.token(op.token).text) && bg.comments.len() == 0 {
            let root = p == 0 && op.depth == 0;
            let fill = Doc::fill(segment, if root {
                1
            } else {
                op.depth
            });
            if root {
                Ok(fill)
            } else {
                Ok(fill.indent())
            }
        } else {
            let before_operator = self.gap_doc(bg, Separator::Soft);
            Ok(indent_levels(cat2(before_operator, segment), op.depth + 1))
        }
    }

    #[verifier::spinoff_prover]
    #[verifier::rlimit(100)]
    fn delimited_with_fuel(&mut self, layout: &Layout, open: TokenId, close: TokenId, Ghost(fuel): Ghost<nat>) -> (result:
        Result<Doc, FormatError>)
        requires
            layout_fits(*old(self).stream, *layout),
            fits_counts(
                delimited_spec(*old(self).stream, *layout, open, close, fuel),
                old(self).consumed_tokens as nat,
                old(self).consumed_comments as nat,
            ),
        ensures
            emits(
                delimited_spec(*old(self).stream, *layout, open, close, fuel),
                result,
                old(self).consumed_tokens as nat,
                final(self).consumed_tokens as nat,
                old(self).consumed_comments as nat,
                final(self).consumed_comments as nat,
            ),
            final(self).stream == old(self).stream,
        decreases fuel, 2nat,
    {
        let stream = self.stream;
        let ghost f = (fuel - 1) as nat;
        let facts = layout.facts(open);
        let style = match facts.delimiter_style {
            Some(s) => s,
            None => DelimiterStyle::Group,
        };
        let open_doc = self.token(open);
        let close_doc = self.token(close);
        let inner_start = match stream.next_token(open) {
            Some(t) => t,
            None => {
                return Err(internal("opening delimiter has no following token"));
            },
        };
        if inner_start == close {
            let g = stream.gap_before(inner_start);
            let sep = if g.comments.len() == 0 {
                Separator::Nothing
            } else if style == DelimiterStyle::Block {
                Separator::Hard
            } else {
                Separator::Soft
            };
            let gd = self.gap_doc_with_comments(g, sep, true, false);
            return Ok(cat3(open_doc, gd, close_doc).group());
        }
        self.contents_with_fuel(layout, open, close, inner_start, open_doc, close_doc, Ghost(f))
    }

    #[verifier::spinoff_prover]
    #[verifier::rlimit(100)]
    fn contents_with_fuel(
        &mut self,
        layout: &Layout,
        open: TokenId,
        close: TokenId,
        inner_start: TokenId,
        open_doc: Doc,
        close_doc: Doc,
        Ghost(fuel): Ghost<nat>,
    ) -> (result: Result<Doc, FormatError>)
        requires
            layout_fits(*old(self).stream, *layout),
            open_doc@ == DocV::Text(text_of(*old(self).stream, open)),
            close_doc@ == DocV::Text(text_of(*old(self).stream, close)),
            fits_counts(
                contents_spec(*old(self).stream, *layout, open, close, inner_start, fuel),
                old(self).consumed_tokens as nat,
                old(self).consumed_comments as nat,
            ),
        ensures
            emits(
                contents_spec(*old(self).stream, *layout, open, close, inner_start, fuel),
                result,
                old(self).consumed_tokens as nat,
                final(self).consumed_tokens as nat,
                old(self).consumed_comments as nat,
                final(self).consumed_comments as nat,
            ),
            final(self).stream == old(self).stream,
        decreases fuel, 2nat,
    {
        let ghost f = (fuel - 1) as nat;
        if let Some(i) = layout.import_group_index(open) {
            let plan = &layout.import_groups[i].1;
            proof {
                match import_plan_index(layout.import_groups@, open) {
                    Some(k) => {
                        assert(k < layout.import_groups@.len());
                        assert(k == i as nat);
                    },
                    None => {},
                }
            }
            assert(import_plan_index(layout.import_groups@, open) == Some(i as nat));
            assert(*plan == layout.import_groups@[i as int].1);
            assert(fuel > 0);
            assert(contents_spec(*self.stream, *layout, open, close, inner_start, fuel) == import_group_spec(
                *self.stream,
                *layout,
                open_doc@,
                close_doc@,
                *plan,
                f,
            ));
            return self.import_group_with_fuel(layout, open_doc, close_doc, plan, Ghost(f));
        }
        assert(import_plan_index(layout.import_groups@, open) is None);
        assert(contents_spec(*self.stream, *layout, open, close, inner_start, fuel) == list_spec(
            *self.stream,
            *layout,
            open,
            close,
            inner_start,
            f,
        ));
        self.list_with_fuel(layout, open, close, inner_start, open_doc, close_doc, Ghost(f))
    }

    #[verifier::spinoff_prover]
    #[verifier::rlimit(100)]
    fn list_with_fuel(
        &mut self,
        layout: &Layout,
        open: TokenId,
        close: TokenId,
        inner_start: TokenId,
        open_doc: Doc,
        close_doc: Doc,
        Ghost(fuel): Ghost<nat>,
    ) -> (result: Result<Doc, FormatError>)
        requires
            layout_fits(*old(self).stream, *layout),
            open.0 < old(self).stream.tokens@.len(),
            close.0 < old(self).stream.tokens@.len(),
            open_doc@ == DocV::Text(text_of(*old(self).stream, open)),
            close_doc@ == DocV::Text(text_of(*old(self).stream, close)),
            fits_counts(
                list_spec(*old(self).stream, *layout, open, close, inner_start, fuel),
                old(self).consumed_tokens as nat,
                old(self).consumed_comments as nat,
            ),
        ensures
            emits(
                list_spec(*old(self).stream, *layout, open, close, inner_start, fuel),
                result,
                old(self).consumed_tokens as nat,
                final(self).consumed_tokens as nat,
                old(self).consumed_comments as nat,
                final(self).consumed_comments as nat,
            ),
            final(self).stream == old(self).stream,
        decreases fuel, 2nat,
    {
        let stream = self.stream;
        let ghost f = (fuel - 1) as nat;
        let facts = layout.facts(open);
        let style = match facts.delimiter_style {
            Some(s) => s,
            None => DelimiterStyle::Group,
        };
        let trailing_comma = facts.supports_trailing_comma();
        let previous = match stream.previous_token(close) {
            Some(p) => p,
            None => {
                return Err(internal("closing delimiter has no preceding token"));
            },
        };
        let source_comma = trailing_comma && same_text(&stream.token(previous).text, ",");
        let suppress = style == DelimiterStyle::Hug;
        let inner_end = if source_comma {
            previous
        } else {
            close
        };
        let sub = match stream.span(inner_start, inner_end) {
            Ok(sub) => sub,
            Err(e) => {
                return Err(e);
            },
        };
        let inner = match self.span_inner_with_fuel(layout, sub, true, Ghost(f)) {
            Ok(d) => d,
            Err(e) => {
                return Err(e);
            },
        };
        let comma = if source_comma {
            let comma_gap = self.gap_doc(stream.gap_before(inner_end), Separator::Nothing);
            self.consumed_tokens = self.consumed_tokens + 1;
            cat2(
                comma_gap,
                if suppress {
                    Doc::Nil
                } else {
                    comma_if_break()
                },
            )
        } else if trailing_comma && !suppress {
            comma_if_break()
        } else {
            Doc::Nil
        };
        let lg = stream.gap_before(inner_start);
        let tg = stream.gap_before(close);
        let leading_starts_line = lg.comments.len() > 0 && (lg.comments[0].newlines_before > 0
            || lg.comments[0].multiline);
        let trailing_ends_line = ends_line_of(tg);
        let sep = match style {
            DelimiterStyle::Block => Separator::Hard,
            DelimiterStyle::Braced => Separator::Soft,
            _ => Separator::Nothing,
        };
        let leading = self.gap_doc_with_comments(lg, sep, true, false);
        let trailing = self.gap_doc(tg, sep);
        Ok(
            list_document(
                style,
                open_doc,
                close_doc,
                leading,
                inner,
                comma,
                trailing,
                leading_starts_line,
                trailing_ends_line,
            ),
        )
    }

    #[verifier::spinoff_prover]
    #[verifier::rlimit(100)]
    fn import_group_with_fuel(
        &mut self,
        layout: &Layout,
        open_doc: Doc,
        close_doc: Doc,
        plan: &ImportGroupPlan,
        Ghost(fuel): Ghost<nat>,
    ) -> (result: Result<Doc, FormatError>)
        requires
            layout_fits(*old(self).stream, *layout),
            fits_counts(
                import_group_spec(*old(self).stream, *layout, open_doc@, close_doc@, *plan, fuel),
                old(self).consumed_tokens as nat,
                old(self).consumed_comments as nat,
            ),
        ensures
            emits(
                import_group_spec(*old(self).stream, *layout, open_doc@, close_doc@, *plan, fuel),
                result,
                old(self).consumed_tokens as nat,
                final(self).consumed_tokens as nat,
                old(self).consumed_comments as nat,
                final(self).consumed_comments as nat,
            ),
            final(self).stream == old(self).stream,
        decreases fuel, 2nat,
    {
        let stream = self.stream;
        let ghost total = import_group_spec(*stream, *layout, open_doc@, close_doc@, *plan, fuel);
        let ghost t0 = old(self).consumed_tokens as nat;
        let ghost c0 = old(self).consumed_comments as nat;
        let opening = gap_with_first_inline(&plan.opening, false);
        proof {
            lemma_import_counts(
                *stream,
                *layout,
                open_doc@,
                close_doc@,
                *plan,
                0,
                seq![gap_doc_of(opening.comments@, plan.opening.newlines, Separator::Nothing, false, false)],
                0,
                opening.comments@.len(),
                (fuel - 1) as nat,
            );
        }
        let od = self.gap_doc(&opening, Separator::Nothing);
        let mut docs: Vec<Doc> = Vec::new();
        docs.push(od);
        proof {
            lemma_docs_view_push(Seq::<Doc>::empty(), docs@[0]);
            assert(docs@ =~= Seq::<Doc>::empty().push(docs@[0]));
            assert(docs_view(Seq::<Doc>::empty()) =~= seq![]);
        }
        let mut p: usize = 0;
        let ghost mut lf = (fuel - 1) as nat;
        let n = plan.items.len();
        loop
            invariant
                self.stream == stream,
                stream == old(self).stream,
                layout_fits(*stream, *layout),
                n == plan.items@.len(),
                total == import_group_spec(*stream, *layout, open_doc@, close_doc@, *plan, fuel),
                t0 == old(self).consumed_tokens,
                c0 == old(self).consumed_comments,
                t0 <= self.consumed_tokens,
                c0 <= self.consumed_comments,
                lf < fuel,
                fits_counts(total, t0, c0),
                total == import_fold_spec(
                    *stream,
                    *layout,
                    open_doc@,
                    close_doc@,
                    *plan,
                    p as nat,
                    docs_view(docs@),
                    (self.consumed_tokens - t0) as nat,
                    (self.consumed_comments - c0) as nat,
                    lf,
                ),
            decreases lf,
        {
            if p >= n {
                let ghost mid = docs@;
                let closing = self.gap_doc_with_comments(&plan.closing, Separator::Nothing, false, ends_line_of(&plan.closing));
                docs.push(closing);
                proof {
                    lemma_docs_view_push(mid, closing);
                    assert(docs@ =~= mid.push(closing));
                }
                let body = cat2(line_if_break(), Doc::concat(docs)).indent();
                return Ok(cat4(open_doc, body, line_if_break(), close_doc).group());
            }
            let ghost g = (lf - 1) as nat;
            let ghost d0 = docs@;
            let ghost t1 = (self.consumed_tokens - t0) as nat;
            let ghost c1 = (self.consumed_comments - c0) as nat;
            proof {
                if let Some(Parts { docs: Ok(parts), tokens: t, comments: c }) = import_item_spec(*stream, *layout, *plan, p as nat, g) {
                    lemma_import_counts(*stream, *layout, open_doc@, close_doc@, *plan, (p + 1) as nat, docs_view(d0) + parts, t1 + t, c1 + c, g);
                }
            }
            match self.import_item_with_fuel(layout, plan, p, &mut docs, Ghost(g)) {
                Ok(()) => {},
                Err(e) => {
                    return Err(e);
                },
            }
            proof {
                lf = g;
            }
            p = p + 1;
        }
    }

    #[verifier::spinoff_prover]
    #[verifier::rlimit(100)]
    fn import_item_with_fuel(
        &mut self,
        layout: &Layout,
        plan: &ImportGroupPlan,
        p: usize,
        docs: &mut Vec<Doc>,
        Ghost(fuel): Ghost<nat>,
    ) -> (result: Result<(), FormatError>)
        requires
            layout_fits(*old(self).stream, *layout),
            import_item_spec(*old(self).stream, *layout, *plan, p as nat, fuel) matches Some(e) && old(
                self,
            ).consumed_tokens + e.tokens <= usize::MAX && old(self).consumed_comments + e.comments <= usize::MAX,
        ensures
            final(self).stream == old(self).stream,
            import_item_spec(*old(self).stream, *layout, *plan, p as nat, fuel) matches Some(e)
                && final(self).consumed_tokens == old(self).consumed_tokens + e.tokens
                && final(self).consumed_comments == old(self).consumed_comments + e.comments && match (e.docs, result) {
                (Ok(parts), Ok(())) => docs_view(final(docs)@) == docs_view(old(docs)@) + parts,
                (Err(m), Err(FormatError::Internal(r))) => r@ == m,
                _ => false,
            },
        decreases fuel, 2nat,
    {
        let ghost g = (fuel - 1) as nat;
        let ghost d0 = docs@;
        let n = plan.items.len();
        let item = &plan.items[p];
        let ld = if p == 0 {
            let first = gap_with_first_inline(&item.leading, false);
            self.movable_leading_doc(&first, Separator::Nothing)
        } else {
            self.movable_leading_doc(&item.leading, Separator::Soft)
        };
        let d = match self.span_inner_with_fuel(layout, item.span, true, Ghost(g)) {
            Ok(d) => d,
            Err(e) => {
                return Err(e);
            },
        };
        let before = self.gap_doc(&item.before_comma, Separator::Nothing);
        if item.comma.is_some() {
            self.consumed_tokens = self.consumed_tokens + 1;
        }
        let comma = if n - p > 1 {
            comma_text()
        } else {
            comma_if_break()
        };
        let suppress = n - p == 1 && plan.closing.comments.len() == 0 && ends_line_of(&item.trailing);
        let trailing = self.gap_doc_with_comments(&item.trailing, Separator::Nothing, false, suppress);
        let ghost added = seq![ld@, d@, before@, comma@, trailing@];
        docs.push(ld);
        docs.push(d);
        docs.push(before);
        docs.push(comma);
        docs.push(trailing);
        proof {
            lemma_docs_view(docs@);
            lemma_docs_view(d0);
            assert(docs_view(docs@) =~= docs_view(d0) + added);
        }
        Ok(())
    }
}

impl<'a> Formatter<'a> {
    /// The document of the tokens of `span`, and the tokens and comments it
    /// emits (see `span_inner_spec`).
    pub fn span_inner(&mut self, layout: &Layout, span: TokenSpan, allow_outer_group: bool) -> (result: Result<
        Doc,
        FormatError,
    >)
        requires
            layout_fits(*old(self).stream, *layout),
            span_inner_defined(*old(self).stream, *layout, span, allow_outer_group),
            fits_counts(
                span_inner_result(*old(self).stream, *layout, span, allow_outer_group),
                old(self).consumed_tokens as nat,
                old(self).consumed_comments as nat,
            ),
        ensures
            emits(
                span_inner_result(*old(self).stream, *layout, span, allow_outer_group),
                result,
                old(self).consumed_tokens as nat,
                final(self).consumed_tokens as nat,
                old(self).consumed_comments as nat,
                final(self).consumed_comments as nat,
            ),
            final(self).stream == old(self).stream,
    {
        let ghost fuel = choose|fuel: nat|
            #[trigger] span_inner_spec(*self.stream, *layout, span, allow_outer_group, fuel) is Some;
        self.span_inner_with_fuel(layout, span, allow_outer_group, Ghost(fuel))
    }

    /// The document of the delimited list from `open` to `close`, and the
    /// tokens and comments it emits (see `delimited_spec`).
    pub fn delimited(&mut self, layout: &Layout, open: TokenId, close: TokenId) -> (result: Result<Doc, FormatError>)
        requires
            layout_fits(*old(self).stream, *layout),
            delimited_defined(*old(self).stream, *layout, open, close),
            fits_counts(
                delimited_result(*old(self).stream, *layout, open, close),
                old(self).consumed_tokens as nat,
                old(self).consumed_comments as nat,
            ),
        ensures
            emits(
                delimited_result(*old(self).stream, *layout, open, close),
                result,
                old(self).consumed_tokens as nat,
                final(self).consumed_tokens as nat,
                old(self).consumed_comments as nat,
                final(self).consumed_comments as nat,
            ),
            final(self).stream == old(self).stream,
    {
        let ghost fuel = choose|fuel: nat| #[trigger] delimited_spec(*self.stream, *layout, open, close, fuel) is Some;
        self.delimited_with_fuel(layout, open, close, Ghost(fuel))
    }
}

/// Whether formatting the whole stream ends without an out-of-range token
/// or gap, within the counters.
pub open spec fn format_defined(stream: TokenStream, layout: Layout) -> bool {
    exists|fuel: nat| #[trigger] format_run(stream, layout, fuel) is Some
}

/// The items of the whole stream after its header.
pub open spec fn format_run(stream: TokenStream, layout: Layout, fuel: nat) -> Option<Emit> {
    let header = layout.document.header;
    items_spec(
        stream,
        layout,
        0,
        seq![gap_doc_view(header, Separator::Nothing, false, false)],
        0,
        header.comments@.len(),
        fuel,
    )
}

pub open spec fn format_fuel(stream: TokenStream, layout: Layout) -> nat {
    choose|fuel: nat| #[trigger] format_run(stream, layout, fuel) is Some
}

/// What formatting the whole stream gives.
pub open spec fn format_result(stream: TokenStream, layout: Layout) -> Option<Result<DocV, Seq<char>>> {
    format_spec(stream, layout, format_fuel(stream, layout))
}

impl<'a> Formatter<'a> {
    #[verifier::spinoff_prover]
    #[verifier::rlimit(100)]
    fn doc_item_with_fuel(&mut self, layout: &Layout, p: usize, docs: &mut Vec<Doc>, Ghost(fuel): Ghost<nat>) -> (result:
        Result<(), FormatError>)
        requires
            layout_fits(*old(self).stream, *layout),
            doc_item_spec(*old(self).stream, *layout, p as nat, fuel) matches Some(e) && old(self).consumed_tokens
                + e.tokens <= usize::MAX && old(self).consumed_comments + e.comments <= usize::MAX,
        ensures
            final(self).stream == old(self).stream,
            doc_item_spec(*old(self).stream, *layout, p as nat, fuel) matches Some(e) && final(self).consumed_tokens
                == old(self).consumed_tokens + e.tokens && final(self).consumed_comments == old(self).consumed_comments
                + e.comments && match (e.docs, result) {
                (Ok(parts), Ok(())) => docs_view(final(docs)@) == docs_view(old(docs)@) + parts,
                (Err(m), Err(FormatError::Internal(r))) => r@ == m,
                _ => false,
            },
    {
        let stream = self.stream;
        let ghost g = (fuel - 1) as nat;
        let ghost d0 = docs@;
        let items = &layout.document.items;
        let item = &items[p];
        let sep = item_separator_of(stream, items, p);
        let ld = if p == 0 {
            let first = gap_with_first_inline(&item.leading, true);
            self.movable_leading_doc(&first, sep)
        } else {
            self.movable_leading_doc(&item.leading, sep)
        };
        let d = match self.span_inner_with_fuel(layout, item.span, true, Ghost(g)) {
            Ok(d) => d,
            Err(e) => {
                return Err(e);
            },
        };
        let trailing = self.gap_doc(&item.trailing, Separator::Nothing);
        let ghost added = seq![ld@, d@, trailing@];
        docs.push(ld);
        docs.push(d);
        docs.push(trailing);
        proof {
            lemma_docs_view(docs@);
            lemma_docs_view(d0);
            assert(docs_view(docs@) =~= docs_view(d0) + added);
        }
        Ok(())
    }

    /// The document of the whole stream: the header, each item of the plan
    /// with its trivia, and the footer (see `format_spec`). Fails, with the
    /// counts in the message, unless every significant token and every
    /// comment of the stream was emitted.
    #[verifier::spinoff_prover]
    #[verifier::rlimit(100)]
    pub fn format(self, layout: &Layout) -> (result: Result<Doc, FormatError>)
        requires
            layout_fits(*self.stream, *layout),
            self.consumed_tokens == 0,
            self.consumed_comments == 0,
            format_defined(*self.stream, *layout),
            fits_counts(format_run(*self.stream, *layout, format_fuel(*self.stream, *layout)), 0, 0),
            format_run(*self.stream, *layout, format_fuel(*self.stream, *layout)) matches Some(e) ==> e.comments
                + layout.document.footer.comments@.len() <= usize::MAX,
        ensures
            match (format_result(*self.stream, *layout), result) {
                (Some(Ok(d)), Ok(r)) => r@ == d,
                (Some(Err(m)), Err(FormatError::Internal(r))) => r@ == m,
                _ => false,
            },
    {
        let ghost orig = *self.stream;
        let mut this = self;
        let stream = this.stream;
        let ghost fuel = format_fuel(*stream, *layout);
        let ghost total = format_run(*stream, *layout, fuel);
        let header = &layout.document.header;
        proof {
            lemma_items_counts(
                *stream,
                *layout,
                0,
                seq![gap_doc_view(*header, Separator::Nothing, false, false)],
                0,
                header.comments@.len(),
                fuel,
            );
        }
        let hd = this.gap_doc(header, Separator::Nothing);
        let mut docs: Vec<Doc> = Vec::new();
        docs.push(hd);
        proof {
            lemma_docs_view_push(Seq::<Doc>::empty(), docs@[0]);
            assert(docs@ =~= Seq::<Doc>::empty().push(docs@[0]));
            assert(docs_view(Seq::<Doc>::empty()) =~= seq![]);
        }
        let mut p: usize = 0;
        let ghost mut lf = fuel;
        let n = layout.document.items.len();
        loop
            invariant
                this.stream == stream,
                orig == *stream,
                orig == *self.stream,
                layout_fits(*stream, *layout),
                n == layout.document.items@.len(),
                fuel == format_fuel(*stream, *layout),
                total == format_run(*stream, *layout, fuel),
                lf <= fuel,
                fits_counts(total, 0, 0),
                total matches Some(e) ==> e.comments + layout.document.footer.comments@.len() <= usize::MAX,
                total == items_spec(
                    *stream,
                    *layout,
                    p as nat,
                    docs_view(docs@),
                    this.consumed_tokens as nat,
                    this.consumed_comments as nat,
                    lf,
                ),
            decreases lf,
        {
            if p >= n {
                assert(total == emitted(cat(docs_view(docs@)), this.consumed_tokens as nat, this.consumed_comments as nat));
                let items_doc = Doc::concat(docs);
                let footer = this.gap_doc(&layout.document.footer, Separator::Nothing);
                if this.consumed_tokens != stream.tokens.len() {
                    let mut message = String::from_str("emitted ");
                    push_decimal(&mut message, this.consumed_tokens);
                    message.append(" of ");
                    push_decimal(&mut message, stream.tokens.len());
                    message.append(" significant tokens");
                    return Err(FormatError::Internal(message));
                }
                if this.consumed_comments != stream.comment_count {
                    let mut message = String::from_str("emitted ");
                    push_decimal(&mut message, this.consumed_comments);
                    message.append(" of ");
                    push_decimal(&mut message, stream.comment_count);
                    message.append(" comments");
                    return Err(FormatError::Internal(message));
                }
                return Ok(cat2(items_doc, footer));
            }
            let ghost g = (lf - 1) as nat;
            let ghost d0 = docs@;
            proof {
                if let Some(Parts { docs: Ok(parts), tokens: t, comments: c }) = doc_item_spec(*stream, *layout, p as nat, g) {
                    lemma_items_counts(
                        *stream,
                        *layout,
                        (p + 1) as nat,
                        docs_view(d0) + parts,
                        (this.consumed_tokens + t) as nat,
                        (this.consumed_comments + c) as nat,
                        g,
                    );
                }
            }
            match this.doc_item_with_fuel(layout, p, &mut docs, Ghost(g)) {
                Ok(()) => {},
                Err(e) => {
                    return Err(e);
                },
            }
            proof {
                lf = g;
            }
            p = p + 1;
        }

    }
}

} // verus!
