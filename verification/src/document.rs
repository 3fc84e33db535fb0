//! A small pretty-printing document model.
use vstd::prelude::*;

verus! {

broadcast use vstd::std_specs::vec::group_vec_axioms;

/// A pretty-printing document.
#[derive(Debug)]
pub enum Doc {
    Nil,
    Text(String),
    Concat(Vec<Doc>),
    Line(LineKind),
    Indent(Box<Doc>),
    Outdent(Box<Doc>),
    Group(Box<Doc>),
    /// A local fill boundary with continuation indentation applied only when
    /// that boundary breaks.
    Fill { flat: Box<Doc>, broken: Box<Doc>, space_when_flat: bool, indent_levels_on_break: usize },
    IfBreak { broken: Box<Doc>, flat: Box<Doc> },
}

/// The kinds of line break.
#[derive(Debug, Clone, Copy, PartialEq, Eq)]
pub enum LineKind {
    Soft,
    Hard,
    Empty,
}

/// The mathematical value of a [`Doc`]: texts are character sequences and
/// concatenations are sequences of documents.
pub enum DocV {
    Nil,
    Text(Seq<char>),
    Concat(Seq<DocV>),
    Line(LineKind),
    Indent(Box<DocV>),
    Outdent(Box<DocV>),
    Group(Box<DocV>),
    Fill { flat: Box<DocV>, broken: Box<DocV>, space_when_flat: bool, indent_levels_on_break: nat },
    IfBreak { broken: Box<DocV>, flat: Box<DocV> },
}

pub open spec fn doc_view(doc: Doc) -> DocV
    decreases doc,
{
    match doc {
        Doc::Nil => DocV::Nil,
        Doc::Text(text) => DocV::Text(text@),
        Doc::Concat(children) => DocV::Concat(docs_view(children@)),
        Doc::Line(kind) => DocV::Line(kind),
        Doc::Indent(inner) => DocV::Indent(Box::new(doc_view(*inner))),
        Doc::Outdent(inner) => DocV::Outdent(Box::new(doc_view(*inner))),
        Doc::Group(inner) => DocV::Group(Box::new(doc_view(*inner))),
        Doc::Fill { flat, broken, space_when_flat, indent_levels_on_break } => DocV::Fill {
            flat: Box::new(doc_view(*flat)),
            broken: Box::new(doc_view(*broken)),
            space_when_flat,
            indent_levels_on_break: indent_levels_on_break as nat,
        },
        Doc::IfBreak { broken, flat } => DocV::IfBreak {
            broken: Box::new(doc_view(*broken)),
            flat: Box::new(doc_view(*flat)),
        },
    }
}

pub open spec fn docs_view(docs: Seq<Doc>) -> Seq<DocV>
    decreases docs,
{
    if docs.len() == 0 {
        seq![]
    } else {
        docs_view(docs.drop_last()).push(doc_view(docs.last()))
    }
}

impl View for Doc {
    type V = DocV;

    open spec fn view(&self) -> DocV {
        doc_view(*self)
    }
}

/// The views of a sequence of documents, element by element.
pub proof fn lemma_docs_view(docs: Seq<Doc>)
    ensures
        docs_view(docs).len() == docs.len(),
        forall|i: int| 0 <= i < docs.len() ==> #[trigger] docs_view(docs)[i] == doc_view(docs[i]),
    decreases docs.len(),
{
    if docs.len() > 0 {
        lemma_docs_view(docs.drop_last());
    }
}

/// Appends documents one by one, dropping `Nil` and splicing the children of
/// a `Concat` in its place.
pub open spec fn flatten_docs(docs: Seq<DocV>) -> Seq<DocV>
    decreases docs.len(),
{
    if docs.len() == 0 {
        seq![]
    } else {
        let prev = flatten_docs(docs.drop_last());
        match docs.last() {
            DocV::Nil => prev,
            DocV::Concat(children) => prev + children,
            doc => prev.push(doc),
        }
    }
}

/// A copy of `doc` with the same value.
pub fn copy_doc(doc: &Doc) -> (result: Doc)
    ensures
        result@ == doc@,
    decreases doc,
{
    match doc {
        Doc::Nil => Doc::Nil,
        Doc::Text(text) => Doc::Text(text.clone()),
        Doc::Concat(children) => {
            let mut copied: Vec<Doc> = Vec::new();
            let mut i: usize = 0;
            proof {
                lemma_docs_view(children@);
            }
            while i < children.len()
                invariant
                    *doc == Doc::Concat(*children),
                    i <= children@.len(),
                    docs_view(children@).len() == children@.len(),
                    forall|j: int|
                        0 <= j < children@.len() ==> #[trigger] docs_view(children@)[j] == doc_view(
                            children@[j],
                        ),
                    docs_view(copied@) == docs_view(children@).take(i as int),
                decreases children@.len() - i,
            {
                proof {
                    assert(decreases_to!(children => children@[i as int]));
                    assert(*doc == Doc::Concat(*children));
                    assert(decreases_to!(*doc => (*doc)->Concat_0));
                    assert(decreases_to!(*doc => children@[i as int]));
                }
                let child = copy_doc(&children[i]);
                let ghost before = copied@;
                copied.push(child);
                proof {
                    assert(copied@.drop_last() == before);
                    assert(docs_view(copied@) =~= docs_view(children@).take(i + 1));
                }
                i += 1;
            }
            assert(docs_view(children@).take(i as int) =~= docs_view(children@));
            Doc::Concat(copied)
        },
        Doc::Line(kind) => Doc::Line(*kind),
        Doc::Indent(inner) => Doc::Indent(Box::new(copy_doc(inner))),
        Doc::Outdent(inner) => Doc::Outdent(Box::new(copy_doc(inner))),
        Doc::Group(inner) => Doc::Group(Box::new(copy_doc(inner))),
        Doc::Fill { flat, broken, space_when_flat, indent_levels_on_break } => Doc::Fill {
            flat: Box::new(copy_doc(flat)),
            broken: Box::new(copy_doc(broken)),
            space_when_flat: *space_when_flat,
            indent_levels_on_break: *indent_levels_on_break,
        },
        Doc::IfBreak { broken, flat } => Doc::IfBreak {
            broken: Box::new(copy_doc(broken)),
            flat: Box::new(copy_doc(flat)),
        },
    }
}

impl Clone for Doc {
    fn clone(&self) -> (result: Self)
        ensures
            result@ == self@,
    {
        copy_doc(self)
    }
}

impl Doc {
    /// A piece of text.
    pub fn text(text: &str) -> (result: Doc)
        ensures
            result@ == DocV::Text(text@),
    {
        Doc::Text(String::from_str(text))
    }

    /// The concatenation of `docs`, with `Nil` dropped and nested
    /// concatenations spliced in place.
    pub fn concat(docs: Vec<Doc>) -> (result: Doc)
        ensures
            result@ == DocV::Concat(flatten_docs(docs_view(docs@))),
    {
        let ghost original = docs_view(docs@);
        proof {
            lemma_docs_view(docs@);
        }
        let mut flattened: Vec<Doc> = Vec::new();
        for doc in it: docs.into_iter()
            invariant
                it.seq() == docs@,
                original == docs_view(docs@),
                original.len() == docs@.len(),
                forall|j: int| 0 <= j < docs@.len() ==> #[trigger] original[j] == doc_view(docs@[j]),
                docs_view(flattened@) == flatten_docs(original.take(it.index() as int)),
        {
            let ghost k = it.index();
            let ghost before = flattened@;
            proof {
                assert(original.take(k + 1).drop_last() =~= original.take(k as int));
                assert(original.take(k + 1).last() == doc_view(doc));
            }
            match doc {
                Doc::Nil => {},
                Doc::Concat(mut children) => {
                    let ghost added = children@;
                    flattened.append(&mut children);
                    proof {
                        lemma_docs_view_append(before, added);
                    }
                },
                other => {
                    flattened.push(other);
                    proof {
                        assert(flattened@.drop_last() == before);
                    }
                },
            }
        }
        assert(original.take(original.len() as int) =~= original);
        Doc::Concat(flattened)
    }

    /// A single space.
    pub fn space() -> (result: Doc)
        ensures
            result@ == DocV::Text(seq![' ']),
    {
        proof {
            reveal_strlit(" ");
            assert(" "@ =~= seq![' ']);
        }
        Doc::text(" ")
    }

    /// A line break that becomes a space when its group fits flat.
    pub fn soft_line() -> (result: Doc)
        ensures
            result@ == DocV::Line(LineKind::Soft),
    {
        Doc::Line(LineKind::Soft)
    }

    /// A fill boundary whose flat and broken forms are the same document.
    pub fn fill(doc: Doc, indent_levels_on_break: usize) -> (result: Doc)
        ensures
            result@ == (DocV::Fill {
                flat: Box::new(doc@),
                broken: Box::new(doc@),
                space_when_flat: true,
                indent_levels_on_break: indent_levels_on_break as nat,
            }),
    {
        let flat = copy_doc(&doc);
        Doc::Fill {
            flat: Box::new(flat),
            broken: Box::new(doc),
            space_when_flat: true,
            indent_levels_on_break,
        }
    }

    /// A fill boundary with separate flat and broken forms.
    pub fn fill_choice(
        flat: Doc,
        broken: Doc,
        space_when_flat: bool,
        indent_levels_on_break: usize,
    ) -> (result: Doc)
        ensures
            result@ == (DocV::Fill {
                flat: Box::new(flat@),
                broken: Box::new(broken@),
                space_when_flat,
                indent_levels_on_break: indent_levels_on_break as nat,
            }),
    {
        Doc::Fill { flat: Box::new(flat), broken: Box::new(broken), space_when_flat, indent_levels_on_break }
    }

    /// A line break that always breaks.
    pub fn hard_line() -> (result: Doc)
        ensures
            result@ == DocV::Line(LineKind::Hard),
    {
        Doc::Line(LineKind::Hard)
    }

    /// A line break that leaves one blank line.
    pub fn empty_line() -> (result: Doc)
        ensures
            result@ == DocV::Line(LineKind::Empty),
    {
        Doc::Line(LineKind::Empty)
    }

    /// This document, one indentation level deeper.
    pub fn indent(self) -> (result: Doc)
        ensures
            result@ == DocV::Indent(Box::new(self@)),
    {
        Doc::Indent(Box::new(self))
    }

    /// This document, one indentation level shallower.
    pub fn outdent(self) -> (result: Doc)
        ensures
            result@ == DocV::Outdent(Box::new(self@)),
    {
        Doc::Outdent(Box::new(self))
    }

    /// This document as a group that is laid out flat when it fits.
    pub fn group(self) -> (result: Doc)
        ensures
            result@ == DocV::Group(Box::new(self@)),
    {
        Doc::Group(Box::new(self))
    }

    /// `broken` in a broken group and `flat` in a flat one.
    pub fn if_break(broken: Doc, flat: Doc) -> (result: Doc)
        ensures
            result@ == (DocV::IfBreak { broken: Box::new(broken@), flat: Box::new(flat@) }),
    {
        Doc::IfBreak { broken: Box::new(broken), flat: Box::new(flat) }
    }
}

/// The views of two sequences, one after the other.
pub proof fn lemma_docs_view_append(a: Seq<Doc>, b: Seq<Doc>)
    ensures
        docs_view(a + b) == docs_view(a) + docs_view(b),
    decreases b.len(),
{
    if b.len() == 0 {
        assert(a + b =~= a);
        assert(docs_view(a) + docs_view(b) =~= docs_view(a));
    } else {
        lemma_docs_view_append(a, b.drop_last());
        assert((a + b).drop_last() =~= a + b.drop_last());
        assert(docs_view(a) + docs_view(b) =~= (docs_view(a) + docs_view(b.drop_last())).push(
            doc_view(b.last()),
        ));
    }
}

} // verus!
