//! Diagnostics that the compiler reports, with the source range they cover.
use std::ops::Range;
use vstd::prelude::*;

verus! {

/// A warning or an error over a range of the source.
#[derive(Debug)]
pub struct Diagnostic {
    kind: DiagnosticKind,
    span: Range<usize>,
}

/// Whether a diagnostic warns or fails the compilation, and why.
#[derive(Debug, Clone, PartialEq, Eq, Hash)]
pub enum DiagnosticKind {
    Warning(WarningKind),
    Error(ErrorKind),
}

/// What a warning reports.
#[derive(Debug, Clone, PartialEq, Eq, Hash)]
pub enum WarningKind {
    UnusedFunction(String),
    UnusedInlineFunction(String),
    UnusedParameter(String),
    UnusedConst(String),
    UnusedLet(String),
    UnusedEnum(String),
    UnusedEnumVariant(String),
    UnusedStruct(String),
    UnusedTypeAlias(String),
    UselessOptionalType,
    RedundantTypeCheck(String),
}

/// What an error reports.
#[derive(Debug, Clone, PartialEq, Eq, Hash)]
pub enum ErrorKind {
    MissingMain,
    UndefinedReference(String),
    UndefinedType(String),
    InlineFunctionOutsideCall,
    RecursiveInlineFunctionCall,
    RecursiveTypeAlias,
    TypeMismatch { expected: String, found: String },
    CastMismatch { expected: String, found: String },
    UncallableType(String),
    ArgumentMismatch { expected: usize, found: usize },
    TooFewArgumentsWithVarargs { expected: usize, found: usize },
    UninitializableType(String),
    DuplicateField(String),
    UndefinedField { field: String, ty: String },
    MissingFields { fields: Vec<String>, ty: String },
    InvalidFieldAccess { field: String, ty: String },
    IndexAccess(String),
    NonFinalSpread,
    NonVarargSpread,
    NonListVararg,
    DuplicateEnumVariant(String),
    UnknownEnumVariant(String),
    PathNotAllowed,
    PathIntoNonEnum(String),
    UnsupportedTypeGuard { from: String, to: String },
    NonAnyPairTypeGuard,
    NonListPairTypeGuard,
    ImplicitReturnInIf,
    ExplicitReturnInExpr,
    EmptyBlock,
    NonAtomEquality(String),
}

impl Clone for Diagnostic {
    fn clone(&self) -> Self {
        Diagnostic { kind: self.kind.clone(), span: self.span.start..self.span.end }
    }
}

impl Diagnostic {
    /// The kind of the diagnostic.
    pub closed spec fn kind_of(&self) -> DiagnosticKind {
        self.kind
    }

    /// The source range of the diagnostic.
    pub closed spec fn span_of(&self) -> Range<usize> {
        self.span
    }

    pub fn new(kind: DiagnosticKind, span: Range<usize>) -> (result: Self)
        ensures
            result.kind_of() == kind,
            result.span_of() == span,
    {
        Self { kind, span }
    }

    pub fn kind(&self) -> (result: &DiagnosticKind)
        ensures
            *result == self.kind_of(),
    {
        &self.kind
    }

    pub fn span(&self) -> (result: &Range<usize>)
        ensures
            *result == self.span_of(),
    {
        &self.span
    }

    pub fn is_error(&self) -> (result: bool)
        ensures
            result == (self.kind_of() is Error),
    {
        matches!(self.kind, DiagnosticKind::Error(_))
    }

    pub fn is_warning(&self) -> (result: bool)
        ensures
            result == (self.kind_of() is Warning),
    {
        matches!(self.kind, DiagnosticKind::Warning(_))
    }
}

/// `name` between backticks.
pub open spec fn quoted(name: Seq<char>) -> Seq<char> {
    seq!['`'] + name + seq!['`']
}

/// The names, each between backticks, separated by a comma and a space.
pub open spec fn joined_names(names: Seq<String>) -> Seq<char>
    decreases names.len(),
{
    if names.len() == 0 {
        seq![]
    } else if names.len() == 1 {
        quoted(names[0]@)
    } else {
        joined_names(names.drop_last()) + seq![',', ' '] + quoted(names.last()@)
    }
}

/// Joins names into one text, each between backticks, such as
/// `` `a`, `b` ``.
pub fn join_names(kinds: &[String]) -> (result: String)
    ensures
        result@ == joined_names(kinds@),
{
    let mut result = String::new();
    let mut i: usize = 0;
    proof {
        assert(kinds@.take(0) =~= Seq::<String>::empty());
    }
    while i < kinds.len()
        invariant
            i <= kinds@.len(),
            result@ == joined_names(kinds@.take(i as int)),
        decreases kinds@.len() - i,
    {
        proof {
            reveal_strlit(", ");
            reveal_strlit("`");
        }
        let ghost before = result@;
        if i > 0 {
            result.append(", ");
        }
        result.append("`");
        result.append(kinds[i].as_str());
        result.append("`");
        proof {
            let t = kinds@.take(i + 1);
            assert(t.drop_last() =~= kinds@.take(i as int));
            assert(t.last() == kinds@[i as int]);
            if i == 0 {
                assert(before =~= Seq::<char>::empty());
            }
            assert(result@ =~= joined_names(t));
        }
        i += 1;
    }
    proof {
        assert(kinds@.take(kinds@.len() as int) =~= kinds@);
    }
    result
}

} // verus!
