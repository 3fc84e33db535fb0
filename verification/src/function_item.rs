//! What the declaration of a function decides from its syntax.
use vstd::prelude::*;

verus! {

broadcast use vstd::std_specs::vec::group_vec_axioms;

/// How a function is compiled.
#[derive(Debug, Clone, Copy, PartialEq, Eq, Structural)]
pub enum FunctionKind {
    /// Its body is substituted at each call.
    Inline,
    /// Its body is read from a compiled file.
    External,
    /// Its parameters are passed in order, as an `extern` function's are.
    Sequential,
    /// Its parameters are passed as a tree.
    BinaryTree,
}

/// The kind of a function marked `inline`, given a source path, or marked
/// `extern`: the first of these that holds decides.
pub open spec fn kind_of(inline: bool, source_path: bool, extern_kw: bool) -> FunctionKind {
    if inline {
        FunctionKind::Inline
    } else if source_path {
        FunctionKind::External
    } else if extern_kw {
        FunctionKind::Sequential
    } else {
        FunctionKind::BinaryTree
    }
}

/// The kind of a function from its markers.
pub fn function_kind(inline: bool, source_path: bool, extern_kw: bool) -> (result: FunctionKind)
    ensures
        result == kind_of(inline, source_path, extern_kw),
{
    if inline {
        FunctionKind::Inline
    } else if source_path {
        FunctionKind::External
    } else if extern_kw {
        FunctionKind::Sequential
    } else {
        FunctionKind::BinaryTree
    }
}

/// A function marked `inline` is inlined whatever else it is marked with;
/// otherwise a source path makes it external, and otherwise `extern` makes
/// its parameters sequential; a function with none of these markers takes
/// its parameters as a tree.
pub proof fn law_function_kind_precedence(inline: bool, source_path: bool, extern_kw: bool)
    ensures
        inline ==> kind_of(inline, source_path, extern_kw) == FunctionKind::Inline,
        (kind_of(inline, source_path, extern_kw) == FunctionKind::Inline) == inline,
        !inline && source_path ==> kind_of(inline, source_path, extern_kw) == FunctionKind::External,
        !inline && !source_path && extern_kw ==> kind_of(inline, source_path, extern_kw) == FunctionKind::Sequential,
        !inline && !source_path && !extern_kw ==> kind_of(inline, source_path, extern_kw) == FunctionKind::BinaryTree,
{
}

/// What the spread markers of a parameter list decide.
#[derive(Debug, Clone)]
pub struct ParameterPlan {
    /// Whether the arguments end in nil: no spread on the last parameter.
    pub nil_terminated: bool,
    /// The parameters, before the last, that are marked as a spread: each
    /// is reported as a spread that is not last, and ignored.
    pub non_final_spreads: Vec<usize>,
}

/// The indices before `upto` where `spreads` holds, in order.
pub open spec fn spread_indices(spreads: Seq<bool>, upto: nat) -> Seq<usize>
    decreases upto,
{
    if upto == 0 {
        seq![]
    } else {
        let front = spread_indices(spreads, (upto - 1) as nat);
        if spreads[upto - 1] {
            front.push((upto - 1) as usize)
        } else {
            front
        }
    }
}

/// The plan for parameters where `spreads[i]` tells whether parameter `i`
/// is marked as a spread: only the last may be one, and then the arguments
/// do not end in nil; a spread marker elsewhere is reported.
pub fn plan_parameters(spreads: &Vec<bool>) -> (result: ParameterPlan)
    ensures
        result.nil_terminated == !(spreads@.len() > 0 && spreads@.last()),
        result.non_final_spreads@ == if spreads@.len() == 0 {
            seq![]
        } else {
            spread_indices(spreads@, (spreads@.len() - 1) as nat)
        },
{
    let n = spreads.len();
    let mut nil_terminated = true;
    let mut non_final_spreads: Vec<usize> = Vec::new();
    let mut i: usize = 0;
    while i < n
        invariant
            0 <= i <= n,
            n == spreads@.len(),
            nil_terminated == !(i == n && n > 0 && spreads@[n - 1]),
            non_final_spreads@ == spread_indices(spreads@, if i < n { i as nat } else if n == 0 { 0 } else { (n - 1) as nat }),
        decreases n - i,
    {
        if spreads[i] {
            if i == n - 1 {
                nil_terminated = false;
            } else {
                non_final_spreads.push(i);
            }
        }
        i = i + 1;
    }
    ParameterPlan { nil_terminated, non_final_spreads }
}

} // verus!
