//! Runtime type checks and their simplification.
use vstd::prelude::*;

use crate::numeral::{decimal, push_decimal};

verus! {

broadcast use vstd::std_specs::vec::group_vec_axioms;

/// A step from a pair to one of its items.
#[derive(Debug, Clone, Copy, PartialEq, Eq, Structural)]
pub enum TypePath {
    First,
    Rest,
}

/// How one type relates to another.
#[derive(Debug, Clone, Copy, PartialEq, Eq, PartialOrd, Ord, Hash)]
pub enum Comparison {
    Equal,
    Assignable,
    Castable,
    NotEqual,
}

/// A check that a value has a shape.
#[derive(Debug, PartialEq, Eq)]
pub enum Check {
    /// The check that always passes.
    Trivial,
    IsPair,
    IsAtom,
    IsBool,
    IsNil,
    Length(usize),
    And(Vec<Check>),
    Or(Vec<Check>),
    If(Box<Check>, Box<Check>, Box<Check>),
    Pair(Box<Check>, Box<Check>),
}

/// The value of a [`Check`].
pub enum CheckV {
    Trivial,
    IsPair,
    IsAtom,
    IsBool,
    IsNil,
    Length(nat),
    And(Seq<CheckV>),
    Or(Seq<CheckV>),
    If(Box<CheckV>, Box<CheckV>, Box<CheckV>),
    Pair(Box<CheckV>, Box<CheckV>),
}

pub open spec fn check_view(check: Check) -> CheckV
    decreases check,
{
    match check {
        Check::Trivial => CheckV::Trivial,
        Check::IsPair => CheckV::IsPair,
        Check::IsAtom => CheckV::IsAtom,
        Check::IsBool => CheckV::IsBool,
        Check::IsNil => CheckV::IsNil,
        Check::Length(len) => CheckV::Length(len as nat),
        Check::And(items) => CheckV::And(checks_view(items@)),
        Check::Or(items) => CheckV::Or(checks_view(items@)),
        Check::If(a, b, c) => CheckV::If(
            Box::new(check_view(*a)),
            Box::new(check_view(*b)),
            Box::new(check_view(*c)),
        ),
        Check::Pair(a, b) => CheckV::Pair(Box::new(check_view(*a)), Box::new(check_view(*b))),
    }
}

pub open spec fn checks_view(checks: Seq<Check>) -> Seq<CheckV>
    decreases checks,
{
    if checks.len() == 0 {
        seq![]
    } else {
        checks_view(checks.drop_last()).push(check_view(checks.last()))
    }
}

impl View for Check {
    type V = CheckV;

    open spec fn view(&self) -> CheckV {
        check_view(*self)
    }
}

pub proof fn lemma_checks_view(checks: Seq<Check>)
    ensures
        checks_view(checks).len() == checks.len(),
        forall|i: int|
            0 <= i < checks.len() ==> #[trigger] checks_view(checks)[i] == check_view(checks[i]),
    decreases checks.len(),
{
    if checks.len() > 0 {
        lemma_checks_view(checks.drop_last());
    }
}

// ---------------------------------------------------------------------------
// Simplification.

/// Which of the unit checks an `And` has already kept.
pub struct AndSeen {
    pub atom: bool,
    pub pair: bool,
    pub bool_: bool,
    pub nil: bool,
}

pub open spec fn finish_and(result: Seq<CheckV>) -> CheckV {
    if result.len() == 0 {
        CheckV::Trivial
    } else if result.len() == 1 {
        result[0]
    } else {
        CheckV::And(result)
    }
}

/// The first `IsAtom` or `IsPair` among `checks`.
pub open spec fn first_shape(checks: Seq<CheckV>) -> Option<CheckV>
    decreases checks.len(),
{
    if checks.len() == 0 {
        Option::<CheckV>::None
    } else if checks[0] is IsAtom || checks[0] is IsPair {
        Some(checks[0])
    } else {
        first_shape(checks.drop_first())
    }
}

/// `checks` without any `IsAtom` (when `atom`) or any `IsPair`.
pub open spec fn without_shape(checks: Seq<CheckV>, atom: bool) -> Seq<CheckV>
    decreases checks.len(),
{
    if checks.len() == 0 {
        seq![]
    } else {
        let rest = without_shape(checks.drop_first(), atom);
        if (atom && checks[0] is IsAtom) || (!atom && checks[0] is IsPair) {
            rest
        } else {
            seq![checks[0]] + rest
        }
    }
}

pub open spec fn finish_or(atoms: Seq<CheckV>, pairs: Seq<CheckV>) -> CheckV {
    if atoms.len() != 0 && pairs.len() != 0 {
        if atoms.len() > pairs.len() {
            CheckV::If(
                Box::new(CheckV::IsAtom),
                Box::new(CheckV::Or(atoms)),
                Box::new(CheckV::Or(pairs)),
            )
        } else {
            CheckV::If(
                Box::new(CheckV::IsPair),
                Box::new(CheckV::Or(pairs)),
                Box::new(CheckV::Or(atoms)),
            )
        }
    } else if atoms.len() == 0 {
        CheckV::And(seq![CheckV::IsPair, CheckV::Or(pairs)])
    } else {
        CheckV::And(seq![CheckV::IsAtom, CheckV::Or(atoms)])
    }
}

/// Simplification of `check` within `fuel` steps; none when the steps run
/// out, which happens for every fuel on the checks whose simplification
/// does not terminate.
pub open spec fn simplify_fuel(check: CheckV, fuel: nat) -> Option<CheckV>
    decreases fuel, 0nat,
{
    if fuel == 0 {
        Option::<CheckV>::None
    } else {
        match check {
            CheckV::Length(len) => Some(
                if len == 0 {
                    CheckV::IsNil
                } else {
                    CheckV::Length(len)
                },
            ),
            CheckV::And(items) => simplify_and_fuel(
                items,
                AndSeen { atom: false, pair: false, bool_: false, nil: false },
                seq![],
                (fuel - 1) as nat,
            ),
            CheckV::Or(items) => simplify_or_fuel(items, seq![], seq![], (fuel - 1) as nat),
            CheckV::If(a, b, c) => match (
                simplify_fuel(*a, (fuel - 1) as nat),
                simplify_fuel(*b, (fuel - 1) as nat),
                simplify_fuel(*c, (fuel - 1) as nat),
            ) {
                (Some(a), Some(b), Some(c)) => Some(
                    CheckV::If(Box::new(a), Box::new(b), Box::new(c)),
                ),
                _ => Option::<CheckV>::None,
            },
            CheckV::Pair(a, b) => match (
                simplify_fuel(*a, (fuel - 1) as nat),
                simplify_fuel(*b, (fuel - 1) as nat),
            ) {
                (Some(a), Some(b)) => Some(CheckV::Pair(Box::new(a), Box::new(b))),
                _ => Option::<CheckV>::None,
            },
            other => Some(other),
        }
    }
}

/// The worklist of an `And`: each item is simplified, nested `And`s are
/// queued, unit checks are kept once and `None` is dropped.
pub open spec fn simplify_and_fuel(
    queue: Seq<CheckV>,
    seen: AndSeen,
    result: Seq<CheckV>,
    fuel: nat,
) -> Option<CheckV>
    decreases fuel, 1nat,
{
    if queue.len() == 0 {
        Some(finish_and(result))
    } else if fuel == 0 {
        Option::<CheckV>::None
    } else {
        let rest = queue.drop_first();
        let f = (fuel - 1) as nat;
        match simplify_fuel(queue[0], f) {
            Option::None => Option::<CheckV>::None,
            Some(item) => match item {
                CheckV::Trivial => simplify_and_fuel(rest, seen, result, f),
                CheckV::IsAtom => if seen.atom {
                    simplify_and_fuel(rest, seen, result, f)
                } else {
                    simplify_and_fuel(rest, AndSeen { atom: true, ..seen }, result.push(item), f)
                },
                CheckV::IsPair => if seen.pair {
                    simplify_and_fuel(rest, seen, result, f)
                } else {
                    simplify_and_fuel(rest, AndSeen { pair: true, ..seen }, result.push(item), f)
                },
                CheckV::IsBool => if seen.bool_ {
                    simplify_and_fuel(rest, seen, result, f)
                } else {
                    simplify_and_fuel(rest, AndSeen { bool_: true, ..seen }, result.push(item), f)
                },
                CheckV::IsNil => if seen.nil {
                    simplify_and_fuel(rest, seen, result, f)
                } else {
                    simplify_and_fuel(rest, AndSeen { nil: true, ..seen }, result.push(item), f)
                },
                CheckV::And(children) => simplify_and_fuel(rest + children, seen, result, f),
                _ => simplify_and_fuel(rest, seen, result.push(item), f),
            },
        }
    }
}

/// The worklist of an `Or`: nested `Or`s are queued; each `And` that holds an
/// `IsAtom` or `IsPair` joins the atom or pair alternatives without it;
/// every other item is dropped.
pub open spec fn simplify_or_fuel(
    queue: Seq<CheckV>,
    atoms: Seq<CheckV>,
    pairs: Seq<CheckV>,
    fuel: nat,
) -> Option<CheckV>
    decreases fuel, 1nat,
{
    if queue.len() == 0 {
        Some(finish_or(atoms, pairs))
    } else if fuel == 0 {
        Option::<CheckV>::None
    } else {
        let rest = queue.drop_first();
        let f = (fuel - 1) as nat;
        match simplify_fuel(queue[0], f) {
            Option::None => Option::<CheckV>::None,
            Some(item) => match item {
                CheckV::And(children) => match first_shape(children) {
                    Some(CheckV::IsAtom) => simplify_or_fuel(
                        rest,
                        atoms.push(CheckV::And(without_shape(children, true))),
                        pairs,
                        f,
                    ),
                    Some(CheckV::IsPair) => simplify_or_fuel(
                        rest,
                        atoms,
                        pairs.push(CheckV::And(without_shape(children, false))),
                        f,
                    ),
                    _ => simplify_or_fuel(rest, atoms, pairs, f),
                },
                CheckV::Or(children) => simplify_or_fuel(rest + children, atoms, pairs, f),
                _ => simplify_or_fuel(rest, atoms, pairs, f),
            },
        }
    }
}

/// Whether simplifying `check` terminates.
pub open spec fn simplify_terminates(check: CheckV) -> bool {
    exists|fuel: nat| #[trigger] simplify_fuel(check, fuel) is Some
}

/// The simplification of `check`, when it terminates.
pub open spec fn simplified(check: CheckV) -> CheckV {
    simplify_fuel(check, choose|fuel: nat| #[trigger] simplify_fuel(check, fuel) is Some).unwrap()
}


proof fn lemma_checks_view_push(checks: Seq<Check>, check: Check)
    ensures
        checks_view(checks.push(check)) == checks_view(checks).push(check_view(check)),
{
    assert(checks.push(check).drop_last() =~= checks);
}

proof fn lemma_checks_view_append(a: Seq<Check>, b: Seq<Check>)
    ensures
        checks_view(a + b) == checks_view(a) + checks_view(b),
{
    lemma_checks_view(a);
    lemma_checks_view(b);
    lemma_checks_view(a + b);
    assert(checks_view(a + b) =~= checks_view(a) + checks_view(b));
}

proof fn lemma_checks_view_remove_first(checks: Seq<Check>)
    requires
        checks.len() > 0,
    ensures
        checks_view(checks.remove(0)) == checks_view(checks).drop_first(),
        checks_view(checks)[0] == check_view(checks[0]),
{
    lemma_checks_view(checks);
    lemma_checks_view(checks.remove(0));
    assert(checks_view(checks.remove(0)) =~= checks_view(checks).drop_first());
}

proof fn lemma_without_shape_append(a: Seq<CheckV>, b: Seq<CheckV>, atom: bool)
    ensures
        without_shape(a + b, atom) == without_shape(a, atom) + without_shape(b, atom),
    decreases a.len(),
{
    if a.len() == 0 {
        assert(a + b =~= b);
        assert(without_shape(a, atom) + without_shape(b, atom) =~= without_shape(b, atom));
    } else {
        lemma_without_shape_append(a.drop_first(), b, atom);
        assert((a + b).drop_first() =~= a.drop_first() + b);
        assert((a + b)[0] == a[0]);
        let w = without_shape(a.drop_first(), atom) + without_shape(b, atom);
        assert(seq![a[0]] + w =~= (seq![a[0]] + without_shape(a.drop_first(), atom))
            + without_shape(b, atom));
    }
}

proof fn lemma_first_shape_skip(checks: Seq<CheckV>, i: int)
    requires
        0 <= i <= checks.len(),
        forall|j: int| 0 <= j < i ==> !(#[trigger] checks[j] is IsAtom || checks[j] is IsPair),
    ensures
        first_shape(checks) == first_shape(checks.skip(i)),
    decreases i,
{
    if i > 0 {
        lemma_first_shape_skip(checks.drop_first(), i - 1);
        assert(checks.drop_first().skip(i - 1) =~= checks.skip(i));
    } else {
        assert(checks.skip(0) =~= checks);
    }
}

/// Which of `IsAtom` (1) or `IsPair` (2) comes first among `checks`; 0 for
/// neither.
fn first_shape_of(checks: &Vec<Check>) -> (result: u8)
    ensures
        result == 0 ==> first_shape(checks_view(checks@)) is None,
        result == 1 ==> first_shape(checks_view(checks@)) == Some(CheckV::IsAtom),
        result == 2 ==> first_shape(checks_view(checks@)) == Some(CheckV::IsPair),
        result <= 2,
{
    let ghost views = checks_view(checks@);
    proof {
        lemma_checks_view(checks@);
    }
    let mut i: usize = 0;
    while i < checks.len()
        invariant
            i <= checks@.len(),
            views == checks_view(checks@),
            views.len() == checks@.len(),
            forall|j: int| 0 <= j < checks@.len() ==> #[trigger] views[j] == check_view(checks@[j]),
            forall|j: int| 0 <= j < i ==> !(#[trigger] views[j] is IsAtom || views[j] is IsPair),
        decreases checks@.len() - i,
    {
        match &checks[i] {
            Check::IsAtom => {
                proof {
                    lemma_first_shape_skip(views, i as int);
                }
                return 1;
            },
            Check::IsPair => {
                proof {
                    lemma_first_shape_skip(views, i as int);
                }
                return 2;
            },
            _ => {},
        }
        i += 1;
    }
    proof {
        lemma_first_shape_skip(views, i as int);
    }
    0
}

/// `checks` without any `IsAtom` (when `atom`) or any `IsPair`.
fn without_shape_of(checks: Vec<Check>, atom: bool) -> (result: Vec<Check>)
    ensures
        checks_view(result@) == without_shape(checks_view(checks@), atom),
{
    let ghost views = checks_view(checks@);
    proof {
        lemma_checks_view(checks@);
    }
    let mut result: Vec<Check> = Vec::new();
    for check in it: checks.into_iter()
        invariant
            it.seq() == checks@,
            views == checks_view(checks@),
            views.len() == checks@.len(),
            forall|j: int| 0 <= j < checks@.len() ==> #[trigger] views[j] == check_view(checks@[j]),
            checks_view(result@) == without_shape(views.take(it.index() as int), atom),
    {
        let ghost k = it.index();
        let ghost before = result@;
        proof {
            assert(views.take(k + 1) =~= views.take(k as int) + seq![views[k as int]]);
            lemma_without_shape_append(views.take(k as int), seq![views[k as int]], atom);
            assert(seq![views[k as int]].drop_first() =~= Seq::<CheckV>::empty());
        }
        let drop = match &check {
            Check::IsAtom => atom,
            Check::IsPair => !atom,
            _ => false,
        };
        proof {
            assert(check == checks@[k as int]);
            assert(views[k as int] == check_view(check));
            assert(without_shape(Seq::<CheckV>::empty(), atom) =~= Seq::<CheckV>::empty());
        }
        if !drop {
            let ghost kept = check;
            result.push(check);
            proof {
                lemma_checks_view_push(before, kept);
                assert(without_shape(seq![views[k as int]], atom) =~= seq![views[k as int]]);
            }
        } else {
            proof {
                assert(without_shape(seq![views[k as int]], atom) =~= Seq::<CheckV>::empty());
                assert(without_shape(views.take(k as int), atom) + Seq::<CheckV>::empty() =~= without_shape(views.take(k as int), atom));
            }
        }
    }
    assert(views.take(views.len() as int) =~= views);
    result
}

fn simplify_with_fuel(check: Check, Ghost(fuel): Ghost<nat>) -> (result: Check)
    requires
        simplify_fuel(check@, fuel) is Some,
    ensures
        result@ == simplify_fuel(check@, fuel).unwrap(),
    decreases fuel, 0nat,
{
    match check {
        Check::Length(len) => if len == 0 {
            Check::IsNil
        } else {
            Check::Length(len)
        },
        Check::And(items) => simplify_and(items, Ghost((fuel - 1) as nat)),
        Check::Or(items) => simplify_or(items, Ghost((fuel - 1) as nat)),
        Check::If(a, b, c) => {
            let a = simplify_with_fuel(*a, Ghost((fuel - 1) as nat));
            let b = simplify_with_fuel(*b, Ghost((fuel - 1) as nat));
            let c = simplify_with_fuel(*c, Ghost((fuel - 1) as nat));
            Check::If(Box::new(a), Box::new(b), Box::new(c))
        },
        Check::Pair(a, b) => {
            let a = simplify_with_fuel(*a, Ghost((fuel - 1) as nat));
            let b = simplify_with_fuel(*b, Ghost((fuel - 1) as nat));
            Check::Pair(Box::new(a), Box::new(b))
        },
        other => other,
    }
}

fn simplify_and(items: Vec<Check>, Ghost(fuel): Ghost<nat>) -> (result: Check)
    requires
        simplify_and_fuel(
            checks_view(items@),
            AndSeen { atom: false, pair: false, bool_: false, nil: false },
            seq![],
            fuel,
        ) is Some,
    ensures
        result@ == simplify_and_fuel(
            checks_view(items@),
            AndSeen { atom: false, pair: false, bool_: false, nil: false },
            seq![],
            fuel,
        ).unwrap(),
    decreases fuel, 1nat,
{
    let ghost target = simplify_and_fuel(
        checks_view(items@),
        AndSeen { atom: false, pair: false, bool_: false, nil: false },
        seq![],
        fuel,
    ).unwrap();
    let mut queue = items;
    let mut result: Vec<Check> = Vec::new();
    let mut atom = false;
    let mut pair = false;
    let mut bool_ = false;
    let mut nil = false;
    let ghost mut f = fuel;
    proof {
        assert(checks_view(result@) =~= Seq::<CheckV>::empty());
    }
    while queue.len() > 0
        invariant
            f <= fuel,
            simplify_and_fuel(
                checks_view(queue@),
                AndSeen { atom, pair, bool_, nil },
                checks_view(result@),
                f,
            ) == Some(target),
        decreases f,
    {
        let ghost old_queue = queue@;
        let ghost old_result = result@;
        proof {
            lemma_checks_view_remove_first(old_queue);
        }
        let head = queue.remove(0);
        let item = simplify_with_fuel(head, Ghost((f - 1) as nat));
        proof {
            f = (f - 1) as nat;
        }
        match item {
            Check::Trivial => {},
            Check::IsAtom => {
                if !atom {
                    atom = true;
                    result.push(Check::IsAtom);
                    proof {
                        lemma_checks_view_push(old_result, Check::IsAtom);
                    }
                }
            },
            Check::IsPair => {
                if !pair {
                    pair = true;
                    result.push(Check::IsPair);
                    proof {
                        lemma_checks_view_push(old_result, Check::IsPair);
                    }
                }
            },
            Check::IsBool => {
                if !bool_ {
                    bool_ = true;
                    result.push(Check::IsBool);
                    proof {
                        lemma_checks_view_push(old_result, Check::IsBool);
                    }
                }
            },
            Check::IsNil => {
                if !nil {
                    nil = true;
                    result.push(Check::IsNil);
                    proof {
                        lemma_checks_view_push(old_result, Check::IsNil);
                    }
                }
            },
            Check::And(mut children) => {
                let ghost kids = children@;
                let ghost rest = queue@;
                queue.append(&mut children);
                proof {
                    lemma_checks_view_append(rest, kids);
                }
            },
            other => {
                let ghost kept = other;
                result.push(other);
                proof {
                    lemma_checks_view_push(old_result, kept);
                }
            },
        }
    }
    proof {
        lemma_checks_view(queue@);
        lemma_checks_view(result@);
    }
    if result.len() == 0 {
        Check::Trivial
    } else if result.len() == 1 {
        result.remove(0)
    } else {
        Check::And(result)
    }
}

fn simplify_or(items: Vec<Check>, Ghost(fuel): Ghost<nat>) -> (result: Check)
    requires
        simplify_or_fuel(checks_view(items@), seq![], seq![], fuel) is Some,
    ensures
        result@ == simplify_or_fuel(checks_view(items@), seq![], seq![], fuel).unwrap(),
    decreases fuel, 1nat,
{
    let ghost target = simplify_or_fuel(checks_view(items@), seq![], seq![], fuel).unwrap();
    let mut queue = items;
    let mut atoms: Vec<Check> = Vec::new();
    let mut pairs: Vec<Check> = Vec::new();
    let ghost mut f = fuel;
    proof {
        assert(checks_view(atoms@) =~= Seq::<CheckV>::empty());
        assert(checks_view(pairs@) =~= Seq::<CheckV>::empty());
    }
    while queue.len() > 0
        invariant
            f <= fuel,
            simplify_or_fuel(checks_view(queue@), checks_view(atoms@), checks_view(pairs@), f)
                == Some(target),
        decreases f,
    {
        let ghost old_queue = queue@;
        let ghost old_atoms = atoms@;
        let ghost old_pairs = pairs@;
        proof {
            lemma_checks_view_remove_first(old_queue);
        }
        let head = queue.remove(0);
        let item = simplify_with_fuel(head, Ghost((f - 1) as nat));
        proof {
            f = (f - 1) as nat;
        }
        match item {
            Check::And(children) => {
                let shape = first_shape_of(&children);
                if shape == 1 {
                    let kept = Check::And(without_shape_of(children, true));
                    let ghost k = kept;
                    atoms.push(kept);
                    proof {
                        lemma_checks_view_push(old_atoms, k);
                    }
                } else if shape == 2 {
                    let kept = Check::And(without_shape_of(children, false));
                    let ghost k = kept;
                    pairs.push(kept);
                    proof {
                        lemma_checks_view_push(old_pairs, k);
                    }
                }
            },
            Check::Or(mut children) => {
                let ghost kids = children@;
                let ghost rest = queue@;
                queue.append(&mut children);
                proof {
                    lemma_checks_view_append(rest, kids);
                }
            },
            _ => {},
        }
    }
    proof {
        lemma_checks_view(queue@);
        lemma_checks_view(atoms@);
        lemma_checks_view(pairs@);
        assert(target == finish_or(checks_view(atoms@), checks_view(pairs@)));
    }
    let ghost av = checks_view(atoms@);
    let ghost pv = checks_view(pairs@);
    if atoms.len() != 0 && pairs.len() != 0 {
        let atom_check = Check::IsAtom;
        let pair_check = Check::IsPair;
        proof {
            assert(check_view(atom_check) == CheckV::IsAtom);
            assert(check_view(pair_check) == CheckV::IsPair);
        }
        if atoms.len() > pairs.len() {
            let then_ = Check::Or(atoms);
            let else_ = Check::Or(pairs);
            assert(check_view(then_) == CheckV::Or(av));
            assert(check_view(else_) == CheckV::Or(pv));
            Check::If(Box::new(atom_check), Box::new(then_), Box::new(else_))
        } else {
            let then_ = Check::Or(pairs);
            let else_ = Check::Or(atoms);
            assert(check_view(then_) == CheckV::Or(pv));
            assert(check_view(else_) == CheckV::Or(av));
            Check::If(Box::new(pair_check), Box::new(then_), Box::new(else_))
        }
    } else if atoms.len() == 0 {
        let mut both: Vec<Check> = Vec::new();
        both.push(Check::IsPair);
        both.push(Check::Or(pairs));
        proof {
            lemma_checks_view(both@);
            assert(checks_view(both@) =~= seq![CheckV::IsPair, CheckV::Or(pv)]);
        }
        Check::And(both)
    } else {
        let mut both: Vec<Check> = Vec::new();
        both.push(Check::IsAtom);
        both.push(Check::Or(atoms));
        proof {
            lemma_checks_view(both@);
            assert(checks_view(both@) =~= seq![CheckV::IsAtom, CheckV::Or(av)]);
        }
        Check::And(both)
    }
}

/// Simplifies a check: lengths of zero become nil checks, conjunctions are
/// flattened with repeated unit checks dropped, and disjunctions are sorted
/// into atom and pair alternatives.
pub fn simplify_check(check: Check) -> (result: Check)
    requires
        simplify_terminates(check@),
    ensures
        result@ == simplified(check@),
{
    let ghost fuel = choose|fuel: nat| #[trigger] simplify_fuel(check@, fuel) is Some;
    simplify_with_fuel(check, Ghost(fuel))
}


// ---------------------------------------------------------------------------
// Text of a check.

/// The characters that open a step of `path` around `val`.
pub open spec fn step_open(step: TypePath) -> Seq<char> {
    match step {
        TypePath::First => seq!['(', 'f', ' '],
        TypePath::Rest => seq!['(', 'r', ' '],
    }
}

/// The openings of the steps of `path`, the last step outermost.
pub open spec fn val_opens(path: Seq<TypePath>) -> Seq<char>
    decreases path.len(),
{
    if path.len() == 0 {
        seq![]
    } else {
        step_open(path.last()) + val_opens(path.drop_last())
    }
}

/// `n` closing brackets.
pub open spec fn closes(n: nat) -> Seq<char> {
    Seq::new(n, |i: int| ')')
}

/// The expression that reaches the checked value along `path`, such as
/// `(f (r val))` for the path `[Rest, First]`.
pub open spec fn val_text(path: Seq<TypePath>) -> Seq<char> {
    val_opens(path) + seq!['v', 'a', 'l'] + closes(path.len())
}

/// The text of `check` on the value at `path`.
pub open spec fn check_text(check: CheckV, path: Seq<TypePath>) -> Seq<char>
    decreases check,
{
    let val = val_text(path);
    match check {
        CheckV::Trivial => seq!['1'],
        CheckV::IsPair => seq!['(', 'l', ' '] + val + seq![')'],
        CheckV::IsAtom => seq!['(', 'n', 'o', 't', ' ', '(', 'l', ' '] + val + seq![')', ')'],
        CheckV::IsBool => seq!['(', 'a', 'n', 'y', ' ', '(', '=', ' '] + val
            + seq![' ', '(', ')', ')', ' ', '(', '=', ' '] + val + seq![' ', '1', ')', ')'],
        CheckV::IsNil => seq!['(', '=', ' '] + val + seq![' ', '(', ')', ')'],
        CheckV::Length(len) => seq!['(', '=', ' ', '(', 's', 't', 'r', 'l', 'e', 'n', ' '] + val
            + seq![')', ' '] + decimal(len) + seq![')'],
        CheckV::And(items) => seq!['(', 'a', 'n', 'd'] + checks_text(items, path) + seq![')'],
        CheckV::Or(items) => seq!['(', 'o', 'r'] + checks_text(items, path) + seq![')'],
        CheckV::If(a, b, c) => seq!['(', 'i', 'f', ' '] + check_text(*a, path) + seq![' ']
            + check_text(*b, path) + seq![' '] + check_text(*c, path) + seq![')'],
        CheckV::Pair(a, b) => {
            let first = path.push(TypePath::First);
            let rest = path.push(TypePath::Rest);
            if *a != CheckV::Trivial && *b != CheckV::Trivial {
                seq!['(', 'a', 'l', 'l', ' '] + check_text(*a, first) + seq![' ']
                    + check_text(*b, rest) + seq![')']
            } else if *a != CheckV::Trivial {
                check_text(*a, first)
            } else if *b != CheckV::Trivial {
                check_text(*b, rest)
            } else {
                seq!['1']
            }
        },
    }
}

/// Each of `checks` after a space.
pub open spec fn checks_text(checks: Seq<CheckV>, path: Seq<TypePath>) -> Seq<char>
    decreases checks,
{
    if checks.len() == 0 {
        seq![]
    } else {
        checks_text(checks.drop_last(), path) + seq![' '] + check_text(checks.last(), path)
    }
}

/// Appends the expression that reaches the checked value along `path`.
pub fn fmt_val(out: &mut String, path: &Vec<TypePath>)
    ensures
        final(out)@ == old(out)@ + val_text(path@),
{
    let ghost start = out@;
    let mut i: usize = path.len();
    proof {
        reveal_strlit("(f ");
        reveal_strlit("(r ");
        reveal_strlit("val");
        reveal_strlit(")");
        assert(path@.take(path@.len() as int) =~= path@);
    }
    while i > 0
        invariant
            i <= path@.len(),
            out@ + val_opens(path@.take(i as int)) == start + val_opens(path@),
        decreases i,
    {
        i -= 1;
        let ghost before = out@;
        proof {
            reveal_strlit("(f ");
            reveal_strlit("(r ");
            let t = path@.take(i + 1);
            assert(t.drop_last() =~= path@.take(i as int));
            assert(t.last() == path@[i as int]);
        }
        match path[i] {
            TypePath::First => out.append("(f "),
            TypePath::Rest => out.append("(r "),
        }
        proof {
            assert(out@ =~= before + step_open(path@[i as int]));
            assert(out@ + val_opens(path@.take(i as int)) =~= before + val_opens(path@.take(i + 1)));
        }
    }
    proof {
        assert(path@.take(0) =~= Seq::<TypePath>::empty());
        assert(out@ + Seq::<char>::empty() =~= out@);
    }
    out.append("val");
    let ghost mid = out@;
    let mut j: usize = 0;
    while j < path.len()
        invariant
            j <= path@.len(),
            mid == start + val_opens(path@) + seq!['v', 'a', 'l'],
            out@ == mid + closes(j as nat),
        decreases path@.len() - j,
    {
        proof {
            reveal_strlit(")");
        }
        out.append(")");
        j += 1;
        assert(out@ =~= mid + closes(j as nat));
    }
}


/// Whether `check` is the check that always passes.
fn is_trivial(check: &Check) -> (result: bool)
    ensures
        result == (check@ == CheckV::Trivial),
{
    match check {
        Check::Trivial => true,
        _ => false,
    }
}

/// Whether `whole` is the conjunction or the disjunction of `checks`.
spec fn lists(whole: Check, checks: Vec<Check>) -> bool {
    match whole {
        Check::And(items) => items == checks,
        Check::Or(items) => items == checks,
        _ => false,
    }
}

/// Appends `checks`, each after a space.
fn fmt_checks(checks: &Vec<Check>, out: &mut String, path: &mut Vec<TypePath>, Ghost(whole): Ghost<&Check>)
    requires
        lists(*whole, *checks),
    ensures
        final(out)@ == old(out)@ + checks_text(checks_view(checks@), old(path)@),
        final(path)@ == old(path)@,
    decreases whole, 0nat,
{
    let ghost start = out@;
    let ghost p0 = path@;
    let ghost views = checks_view(checks@);
    proof {
        lemma_checks_view(checks@);
        assert(views.take(0) =~= Seq::<CheckV>::empty());
    }
    let mut i: usize = 0;
    while i < checks.len()
        invariant
            i <= checks@.len(),
            views == checks_view(checks@),
            views.len() == checks@.len(),
            forall|j: int| 0 <= j < checks@.len() ==> #[trigger] views[j] == check_view(checks@[j]),
            path@ == p0,
            out@ == start + checks_text(views.take(i as int), p0),
            lists(*whole, *checks),
        decreases checks@.len() - i,
    {
        proof {
            reveal_strlit(" ");
        }
        out.append(" ");
        proof {
            assert(decreases_to!(whole => checks@[i as int]));
        }
        fmt_check(&checks[i], out, path);
        proof {
            let t = views.take(i + 1);
            assert(t.drop_last() =~= views.take(i as int));
            assert(t.last() == views[i as int]);
        }
        i += 1;
    }
    proof {
        assert(views.take(views.len() as int) =~= views);
    }
}

/// Appends the text of a check that holds no other check.
fn fmt_unit(check: &Check, out: &mut String, path: &Vec<TypePath>)
    requires
        !(check is And || check is Or || check is If || check is Pair),
    ensures
        final(out)@ == old(out)@ + check_text(check@, path@),
{
    let ghost start = out@;
    match check {
        Check::Trivial => {
            proof {
                reveal_strlit("1");
            }
            out.append("1");
        },
        Check::IsPair => {
            proof {
                reveal_strlit("(l ");
                reveal_strlit(")");
            }
            out.append("(l ");
            fmt_val(out, path);
            out.append(")");
        },
        Check::IsAtom => {
            proof {
                reveal_strlit("(not (l ");
                reveal_strlit("))");
            }
            out.append("(not (l ");
            fmt_val(out, path);
            out.append("))");
        },
        Check::IsBool => {
            proof {
                reveal_strlit("(any (= ");
                reveal_strlit(" ()) (= ");
                reveal_strlit(" 1))");
            }
            out.append("(any (= ");
            fmt_val(out, path);
            out.append(" ()) (= ");
            fmt_val(out, path);
            out.append(" 1))");
        },
        Check::IsNil => {
            proof {
                reveal_strlit("(= ");
                reveal_strlit(" ())");
            }
            out.append("(= ");
            fmt_val(out, path);
            out.append(" ())");
        },
        Check::Length(len) => {
            proof {
                reveal_strlit("(= (strlen ");
                reveal_strlit(") ");
                reveal_strlit(")");
            }
            out.append("(= (strlen ");
            fmt_val(out, path);
            out.append(") ");
            push_decimal(out, *len);
            out.append(")");
        },
        _ => {},
    }
    assert(out@ =~= start + check_text(check@, path@));
}

/// Appends the text of `check` on the value at `path`.
#[verifier::spinoff_prover]
pub fn fmt_check(check: &Check, out: &mut String, path: &mut Vec<TypePath>)
    ensures
        final(out)@ == old(out)@ + check_text(check@, old(path)@),
        final(path)@ == old(path)@,
    decreases check, 1nat,
{
    let ghost start = out@;
    let ghost p0 = path@;
    match check {
        Check::And(checks) => {
            proof {
                reveal_strlit("(and");
                reveal_strlit(")");
            }
            out.append("(and");
            fmt_checks(checks, out, path, Ghost(check));
            out.append(")");
            assert(out@ =~= start + check_text(check@, p0));
        },
        Check::Or(checks) => {
            proof {
                reveal_strlit("(or");
                reveal_strlit(")");
            }
            out.append("(or");
            fmt_checks(checks, out, path, Ghost(check));
            out.append(")");
            assert(out@ =~= start + check_text(check@, p0));
        },
        Check::If(cond, then_, else_) => {
            proof {
                reveal_strlit("(if ");
                reveal_strlit(" ");
                reveal_strlit(")");
            }
            out.append("(if ");
            fmt_check(cond, out, path);
            out.append(" ");
            fmt_check(then_, out, path);
            out.append(" ");
            fmt_check(else_, out, path);
            out.append(")");
            assert(out@ =~= start + check_text(check@, p0));
        },
        Check::Pair(first, rest) => {
            let has_first = !is_trivial(first);
            let has_rest = !is_trivial(rest);
            proof {
                reveal_strlit("(all ");
                reveal_strlit(" ");
                reveal_strlit(")");
                reveal_strlit("1");
            }
            if has_first && has_rest {
                out.append("(all ");
                path.push(TypePath::First);
                fmt_check(first, out, path);
                path.pop();
                out.append(" ");
                proof {
                    assert(path@ =~= p0);
                }
                path.push(TypePath::Rest);
                fmt_check(rest, out, path);
                path.pop();
                out.append(")");
            } else if has_first {
                path.push(TypePath::First);
                fmt_check(first, out, path);
                path.pop();
            } else if has_rest {
                path.push(TypePath::Rest);
                fmt_check(rest, out, path);
                path.pop();
            } else {
                out.append("1");
            }
            proof {
                assert(path@ =~= p0);
            }
            assert(out@ =~= start + check_text(check@, p0));
        },
        _ => fmt_unit(check, out, path),
    }
}

impl Check {
    /// The text of the check on the value itself, such as
    /// `(and (not (l val)) (= (strlen val) 32))`.
    pub fn to_string(&self) -> (result: String)
        ensures
            result@ == check_text(self@, seq![]),
    {
        let mut out = String::new();
        let mut path: Vec<TypePath> = Vec::new();
        fmt_check(self, &mut out, &mut path);
        proof {
            assert(path@ =~= Seq::<TypePath>::empty());
            assert(out@ =~= check_text(self@, seq![]));
        }
        out
    }
}


/// A copy of `check` with the same value.
pub fn copy_check(check: &Check) -> (result: Check)
    ensures
        result@ == check@,
    decreases check, 1nat,
{
    match check {
        Check::Trivial => Check::Trivial,
        Check::IsPair => Check::IsPair,
        Check::IsAtom => Check::IsAtom,
        Check::IsBool => Check::IsBool,
        Check::IsNil => Check::IsNil,
        Check::Length(len) => Check::Length(*len),
        Check::And(items) => Check::And(copy_checks(items, Ghost(check))),
        Check::Or(items) => Check::Or(copy_checks(items, Ghost(check))),
        Check::If(a, b, c) => Check::If(
            Box::new(copy_check(a)),
            Box::new(copy_check(b)),
            Box::new(copy_check(c)),
        ),
        Check::Pair(a, b) => Check::Pair(Box::new(copy_check(a)), Box::new(copy_check(b))),
    }
}

/// Copies of `checks`, the items of `whole`.
fn copy_checks(checks: &Vec<Check>, Ghost(whole): Ghost<&Check>) -> (result: Vec<Check>)
    requires
        lists(*whole, *checks),
    ensures
        checks_view(result@) == checks_view(checks@),
    decreases whole, 0nat,
{
    let mut copied: Vec<Check> = Vec::new();
    let mut i: usize = 0;
    proof {
        lemma_checks_view(checks@);
        assert(checks_view(copied@) =~= checks_view(checks@).take(0));
    }
    while i < checks.len()
        invariant
            lists(*whole, *checks),
            i <= checks@.len(),
            checks_view(checks@).len() == checks@.len(),
            forall|j: int| 0 <= j < checks@.len() ==> #[trigger] checks_view(checks@)[j] == check_view(checks@[j]),
            checks_view(copied@) == checks_view(checks@).take(i as int),
        decreases checks@.len() - i,
    {
        proof {
            assert(decreases_to!(whole => checks@[i as int]));
        }
        let item = copy_check(&checks[i]);
        let ghost before = copied@;
        copied.push(item);
        proof {
            lemma_checks_view_push(before, item);
            assert(checks_view(copied@) =~= checks_view(checks@).take(i + 1));
        }
        i += 1;
    }
    assert(checks_view(checks@).take(i as int) =~= checks_view(checks@));
    copied
}

impl Clone for Check {
    fn clone(&self) -> (result: Self)
        ensures
            result@ == self@,
    {
        copy_check(self)
    }
}


// ---------------------------------------------------------------------------
// What simplification leaves out.

/// Whether no length check in `check` asks for length zero.
pub open spec fn no_empty_length(check: CheckV) -> bool
    decreases check,
{
    match check {
        CheckV::Length(len) => len != 0,
        CheckV::And(items) => all_no_empty_length(items),
        CheckV::Or(items) => all_no_empty_length(items),
        CheckV::If(a, b, c) => no_empty_length(*a) && no_empty_length(*b) && no_empty_length(*c),
        CheckV::Pair(a, b) => no_empty_length(*a) && no_empty_length(*b),
        _ => true,
    }
}

/// Whether no length check in `checks` asks for length zero.
pub open spec fn all_no_empty_length(checks: Seq<CheckV>) -> bool
    decreases checks,
{
    if checks.len() == 0 {
        true
    } else {
        all_no_empty_length(checks.drop_last()) && no_empty_length(checks.last())
    }
}

proof fn lemma_all_no_empty_length(checks: Seq<CheckV>)
    ensures
        all_no_empty_length(checks) <==> forall|i: int| 0 <= i < checks.len() ==> #[trigger] no_empty_length(checks[i]),
    decreases checks.len(),
{
    if checks.len() > 0 {
        lemma_all_no_empty_length(checks.drop_last());
        if forall|i: int| 0 <= i < checks.len() ==> #[trigger] no_empty_length(checks[i]) {
            assert forall|i: int| 0 <= i < checks.drop_last().len() implies #[trigger] no_empty_length(checks.drop_last()[i]) by {
                assert(checks.drop_last()[i] == checks[i]);
                assert(no_empty_length(checks[i]));
            }
            assert(no_empty_length(checks[checks.len() - 1]));
        }
        if all_no_empty_length(checks) {
            assert forall|i: int| 0 <= i < checks.len() implies #[trigger] no_empty_length(checks[i]) by {
                if i < checks.len() - 1 {
                    assert(checks.drop_last()[i] == checks[i]);
                    assert(no_empty_length(checks.drop_last()[i]));
                }
            }
        }
    }
}

proof fn lemma_without_shape_clean(checks: Seq<CheckV>, atom: bool)
    requires
        all_no_empty_length(checks),
    ensures
        all_no_empty_length(without_shape(checks, atom)),
    decreases checks.len(),
{
    lemma_all_no_empty_length(checks);
    if checks.len() > 0 {
        assert forall|i: int| 0 <= i < checks.drop_first().len() implies #[trigger] no_empty_length(checks.drop_first()[i]) by {
            assert(checks.drop_first()[i] == checks[i + 1]);
            assert(no_empty_length(checks[i + 1]));
        }
        lemma_all_no_empty_length(checks.drop_first());
        lemma_without_shape_clean(checks.drop_first(), atom);
        let rest = without_shape(checks.drop_first(), atom);
        lemma_all_no_empty_length(rest);
        let with_first = seq![checks[0]] + rest;
        assert(no_empty_length(checks[0]));
        assert forall|i: int| 0 <= i < with_first.len() implies #[trigger] no_empty_length(with_first[i]) by {
            if i > 0 {
                assert(with_first[i] == rest[i - 1]);
            }
        }
        lemma_all_no_empty_length(with_first);
    }
}

proof fn lemma_push_clean(checks: Seq<CheckV>, check: CheckV)
    requires
        all_no_empty_length(checks),
        no_empty_length(check),
    ensures
        all_no_empty_length(checks.push(check)),
{
    assert(checks.push(check).drop_last() =~= checks);
}

proof fn lemma_simplify_fuel_clean(check: CheckV, fuel: nat)
    ensures
        simplify_fuel(check, fuel) matches Some(r) ==> no_empty_length(r),
    decreases fuel, 0nat,
{
    if fuel > 0 {
        match check {
            CheckV::And(items) => {
                lemma_simplify_and_clean(
                    items,
                    AndSeen { atom: false, pair: false, bool_: false, nil: false },
                    seq![],
                    (fuel - 1) as nat,
                );
            },
            CheckV::Or(items) => {
                lemma_simplify_or_clean(items, seq![], seq![], (fuel - 1) as nat);
            },
            CheckV::If(a, b, c) => {
                lemma_simplify_fuel_clean(*a, (fuel - 1) as nat);
                lemma_simplify_fuel_clean(*b, (fuel - 1) as nat);
                lemma_simplify_fuel_clean(*c, (fuel - 1) as nat);
            },
            CheckV::Pair(a, b) => {
                lemma_simplify_fuel_clean(*a, (fuel - 1) as nat);
                lemma_simplify_fuel_clean(*b, (fuel - 1) as nat);
            },
            _ => {},
        }
    }
}

proof fn lemma_simplify_and_clean(queue: Seq<CheckV>, seen: AndSeen, result: Seq<CheckV>, fuel: nat)
    requires
        all_no_empty_length(result),
    ensures
        simplify_and_fuel(queue, seen, result, fuel) matches Some(r) ==> no_empty_length(r),
    decreases fuel, 1nat,
{
    if queue.len() == 0 {
        lemma_all_no_empty_length(result);
    } else if fuel > 0 {
        let rest = queue.drop_first();
        let f = (fuel - 1) as nat;
        lemma_simplify_fuel_clean(queue[0], f);
        match simplify_fuel(queue[0], f) {
            Some(item) => {
                if no_empty_length(item) {
                    lemma_push_clean(result, item);
                }
                match item {
                    CheckV::Trivial => lemma_simplify_and_clean(rest, seen, result, f),
                    CheckV::IsAtom => {
                        lemma_simplify_and_clean(rest, seen, result, f);
                        lemma_simplify_and_clean(rest, AndSeen { atom: true, ..seen }, result.push(item), f);
                    },
                    CheckV::IsPair => {
                        lemma_simplify_and_clean(rest, seen, result, f);
                        lemma_simplify_and_clean(rest, AndSeen { pair: true, ..seen }, result.push(item), f);
                    },
                    CheckV::IsBool => {
                        lemma_simplify_and_clean(rest, seen, result, f);
                        lemma_simplify_and_clean(rest, AndSeen { bool_: true, ..seen }, result.push(item), f);
                    },
                    CheckV::IsNil => {
                        lemma_simplify_and_clean(rest, seen, result, f);
                        lemma_simplify_and_clean(rest, AndSeen { nil: true, ..seen }, result.push(item), f);
                    },
                    CheckV::And(children) => lemma_simplify_and_clean(rest + children, seen, result, f),
                    _ => lemma_simplify_and_clean(rest, seen, result.push(item), f),
                }
            },
            None => {},
        }
    }
}

proof fn lemma_simplify_or_clean(queue: Seq<CheckV>, atoms: Seq<CheckV>, pairs: Seq<CheckV>, fuel: nat)
    requires
        all_no_empty_length(atoms),
        all_no_empty_length(pairs),
    ensures
        simplify_or_fuel(queue, atoms, pairs, fuel) matches Some(r) ==> no_empty_length(r),
    decreases fuel, 1nat,
{
    if queue.len() == 0 {
        let empty = Seq::<CheckV>::empty();
        lemma_push_clean(empty, CheckV::IsPair);
        lemma_push_clean(empty.push(CheckV::IsPair), CheckV::Or(pairs));
        assert(empty.push(CheckV::IsPair).push(CheckV::Or(pairs)) =~= seq![CheckV::IsPair, CheckV::Or(pairs)]);
        lemma_push_clean(empty, CheckV::IsAtom);
        lemma_push_clean(empty.push(CheckV::IsAtom), CheckV::Or(atoms));
        assert(empty.push(CheckV::IsAtom).push(CheckV::Or(atoms)) =~= seq![CheckV::IsAtom, CheckV::Or(atoms)]);
    } else if fuel > 0 {
        let rest = queue.drop_first();
        let f = (fuel - 1) as nat;
        lemma_simplify_fuel_clean(queue[0], f);
        match simplify_fuel(queue[0], f) {
            Some(item) => match item {
                CheckV::And(children) => {
                    lemma_without_shape_clean(children, true);
                    lemma_without_shape_clean(children, false);
                    lemma_push_clean(atoms, CheckV::And(without_shape(children, true)));
                    lemma_push_clean(pairs, CheckV::And(without_shape(children, false)));
                    lemma_simplify_or_clean(rest, atoms.push(CheckV::And(without_shape(children, true))), pairs, f);
                    lemma_simplify_or_clean(rest, atoms, pairs.push(CheckV::And(without_shape(children, false))), f);
                    lemma_simplify_or_clean(rest, atoms, pairs, f);
                },
                CheckV::Or(children) => lemma_simplify_or_clean(rest + children, atoms, pairs, f),
                _ => lemma_simplify_or_clean(rest, atoms, pairs, f),
            },
            None => {},
        }
    }
}

/// Simplification leaves no length check that asks for length zero: such a
/// check becomes a nil check.
pub proof fn law_simplified_has_no_empty_length(check: CheckV)
    requires
        simplify_terminates(check),
    ensures
        no_empty_length(simplified(check)),
{
    let fuel = choose|fuel: nat| #[trigger] simplify_fuel(check, fuel) is Some;
    lemma_simplify_fuel_clean(check, fuel);
}


/// Whether `check` is one of the unit checks that a conjunction keeps once.
pub open spec fn is_unit_check(check: CheckV) -> bool {
    check is IsAtom || check is IsPair || check is IsBool || check is IsNil
}

/// Whether the items of a conjunction are flat: no conjunction and no
/// trivial check among them, and no unit check twice.
pub open spec fn flat_conjunction(items: Seq<CheckV>) -> bool {
    &&& forall|i: int| 0 <= i < items.len() ==> !(#[trigger] items[i] is And) && !(items[i] is Trivial)
    &&& forall|i: int, j: int|
        0 <= i < j < items.len() && is_unit_check(#[trigger] items[i]) ==> items[i] != #[trigger] items[j]
}

/// Whether `seen` records every unit check among `items`.
pub open spec fn records_units(seen: AndSeen, items: Seq<CheckV>) -> bool {
    forall|i: int|
        0 <= i < items.len() ==> {
            &&& (#[trigger] items[i] is IsAtom ==> seen.atom)
            &&& (items[i] is IsPair ==> seen.pair)
            &&& (items[i] is IsBool ==> seen.bool_)
            &&& (items[i] is IsNil ==> seen.nil)
        }
}

proof fn lemma_simplify_and_flat(queue: Seq<CheckV>, seen: AndSeen, result: Seq<CheckV>, fuel: nat)
    requires
        flat_conjunction(result),
        records_units(seen, result),
    ensures
        simplify_and_fuel(queue, seen, result, fuel) matches Some(CheckV::And(items)) ==> flat_conjunction(items),
    decreases fuel,
{
    if queue.len() > 0 && fuel > 0 {
        let rest = queue.drop_first();
        let f = (fuel - 1) as nat;
        match simplify_fuel(queue[0], f) {
            Some(item) => {
                let pushed = result.push(item);
                assert forall|i: int| 0 <= i < result.len() implies #[trigger] pushed[i] == result[i] by {}
                match item {
                    CheckV::Trivial => lemma_simplify_and_flat(rest, seen, result, f),
                    CheckV::IsAtom => if seen.atom {
                        lemma_simplify_and_flat(rest, seen, result, f);
                    } else {
                        lemma_simplify_and_flat(rest, AndSeen { atom: true, ..seen }, pushed, f);
                    },
                    CheckV::IsPair => if seen.pair {
                        lemma_simplify_and_flat(rest, seen, result, f);
                    } else {
                        lemma_simplify_and_flat(rest, AndSeen { pair: true, ..seen }, pushed, f);
                    },
                    CheckV::IsBool => if seen.bool_ {
                        lemma_simplify_and_flat(rest, seen, result, f);
                    } else {
                        lemma_simplify_and_flat(rest, AndSeen { bool_: true, ..seen }, pushed, f);
                    },
                    CheckV::IsNil => if seen.nil {
                        lemma_simplify_and_flat(rest, seen, result, f);
                    } else {
                        lemma_simplify_and_flat(rest, AndSeen { nil: true, ..seen }, pushed, f);
                    },
                    CheckV::And(children) => lemma_simplify_and_flat(rest + children, seen, result, f),
                    _ => lemma_simplify_and_flat(rest, seen, pushed, f),
                }
            },
            None => {},
        }
    }
}

/// A simplified conjunction is flat: it holds no conjunction and no trivial
/// check, and no unit check twice.
pub proof fn law_simplified_conjunction_is_flat(items: Seq<CheckV>)
    requires
        simplify_terminates(CheckV::And(items)),
    ensures
        simplified(CheckV::And(items)) matches CheckV::And(kept) ==> flat_conjunction(kept),
{
    let check = CheckV::And(items);
    let fuel = choose|fuel: nat| #[trigger] simplify_fuel(check, fuel) is Some;
    lemma_simplify_and_flat(
        items,
        AndSeen { atom: false, pair: false, bool_: false, nil: false },
        seq![],
        (fuel - 1) as nat,
    );
}


// ---------------------------------------------------------------------------
// What a check means on a value.

/// A value: an atom of bytes, or a pair.
pub enum Value {
    Atom(Seq<u8>),
    Pair(Box<Value>, Box<Value>),
}

/// The part of `value` that `path` reaches, first step first; none where a
/// step meets an atom.
pub open spec fn value_at(value: Value, path: Seq<TypePath>) -> Option<Value>
    decreases path.len(),
{
    if path.len() == 0 {
        Some(value)
    } else {
        match value_at(value, path.drop_last()) {
            Some(Value::Pair(first, rest)) => Some(
                match path.last() {
                    TypePath::First => *first,
                    TypePath::Rest => *rest,
                },
            ),
            _ => None,
        }
    }
}

/// Both, where both are defined.
pub open spec fn both(a: Option<bool>, b: Option<bool>) -> Option<bool> {
    match (a, b) {
        (Some(x), Some(y)) => Some(x && y),
        _ => None,
    }
}

/// Whether the printed check holds of the value at `path` in `value`: none
/// where evaluating it fails, as taking the length or comparing a pair does,
/// or stepping into an atom.
pub open spec fn eval_check(check: CheckV, value: Value, path: Seq<TypePath>) -> Option<bool>
    decreases check,
{
    let at = value_at(value, path);
    match check {
        CheckV::Trivial => Some(true),
        CheckV::IsPair => match at {
            Some(v) => Some(v is Pair),
            None => None,
        },
        CheckV::IsAtom => match at {
            Some(v) => Some(!(v is Pair)),
            None => None,
        },
        CheckV::IsBool => match at {
            Some(Value::Atom(bytes)) => Some(bytes.len() == 0 || bytes == seq![1u8]),
            _ => None,
        },
        CheckV::IsNil => match at {
            Some(Value::Atom(bytes)) => Some(bytes.len() == 0),
            _ => None,
        },
        CheckV::Length(len) => match at {
            Some(Value::Atom(bytes)) => Some(bytes.len() == len),
            _ => None,
        },
        CheckV::And(items) => if evals_defined(items, value, path) {
            Some(evals_hold(items, value, path))
        } else {
            None
        },
        CheckV::Or(items) => if evals_defined(items, value, path) {
            Some(evals_any(items, value, path))
        } else {
            None
        },
        CheckV::If(c, t, e) => match eval_check(*c, value, path) {
            Some(true) => eval_check(*t, value, path),
            Some(false) => eval_check(*e, value, path),
            None => None,
        },
        CheckV::Pair(a, b) => both(
            eval_check(*a, value, path.push(TypePath::First)),
            eval_check(*b, value, path.push(TypePath::Rest)),
        ),
    }
}

/// Whether every check of `checks` is defined on the value.
pub open spec fn evals_defined(checks: Seq<CheckV>, value: Value, path: Seq<TypePath>) -> bool
    decreases checks,
{
    if checks.len() == 0 {
        true
    } else {
        evals_defined(checks.drop_last(), value, path) && eval_check(checks.last(), value, path) is Some
    }
}

/// Whether every check of `checks` holds of the value.
pub open spec fn evals_hold(checks: Seq<CheckV>, value: Value, path: Seq<TypePath>) -> bool
    decreases checks,
{
    if checks.len() == 0 {
        true
    } else {
        evals_hold(checks.drop_last(), value, path) && eval_check(checks.last(), value, path) == Some(true)
    }
}

/// Whether some check of `checks` holds of the value.
pub open spec fn evals_any(checks: Seq<CheckV>, value: Value, path: Seq<TypePath>) -> bool
    decreases checks,
{
    if checks.len() == 0 {
        false
    } else {
        evals_any(checks.drop_last(), value, path) || eval_check(checks.last(), value, path) == Some(true)
    }
}

proof fn lemma_evals(checks: Seq<CheckV>, value: Value, path: Seq<TypePath>)
    ensures
        evals_defined(checks, value, path) <==> forall|i: int|
            0 <= i < checks.len() ==> #[trigger] eval_check(checks[i], value, path) is Some,
        evals_hold(checks, value, path) <==> forall|i: int|
            0 <= i < checks.len() ==> #[trigger] eval_check(checks[i], value, path) == Some(true),
    decreases checks.len(),
{
    if checks.len() > 0 {
        let front = checks.drop_last();
        let n = front.len() as int;
        lemma_evals(front, value, path);
        if evals_defined(checks, value, path) {
            assert forall|i: int| 0 <= i < checks.len() implies #[trigger] eval_check(checks[i], value, path) is Some by {
                if i < n {
                    assert(front[i] == checks[i]);
                    assert(eval_check(front[i], value, path) is Some);
                }
            }
        }
        if forall|i: int| 0 <= i < checks.len() ==> #[trigger] eval_check(checks[i], value, path) is Some {
            assert forall|i: int| 0 <= i < n implies #[trigger] eval_check(front[i], value, path) is Some by {
                assert(front[i] == checks[i]);
                assert(eval_check(checks[i], value, path) is Some);
            }
            assert(eval_check(checks[n], value, path) is Some);
        }
        if evals_hold(checks, value, path) {
            assert forall|i: int| 0 <= i < checks.len() implies #[trigger] eval_check(checks[i], value, path) == Some(true) by {
                if i < n {
                    assert(front[i] == checks[i]);
                    assert(eval_check(front[i], value, path) == Some(true));
                }
            }
        }
        if forall|i: int| 0 <= i < checks.len() ==> #[trigger] eval_check(checks[i], value, path) == Some(true) {
            assert forall|i: int| 0 <= i < n implies #[trigger] eval_check(front[i], value, path) == Some(true) by {
                assert(front[i] == checks[i]);
                assert(eval_check(checks[i], value, path) == Some(true));
            }
            assert(eval_check(checks[n], value, path) == Some(true));
        }
    }
}

/// The conjunction of `checks` on the value.
pub open spec fn conj(checks: Seq<CheckV>, value: Value, path: Seq<TypePath>) -> Option<bool> {
    if evals_defined(checks, value, path) {
        Some(evals_hold(checks, value, path))
    } else {
        None
    }
}

/// Whether no disjunction occurs in `check`.
pub open spec fn no_or(check: CheckV) -> bool
    decreases check,
{
    match check {
        CheckV::Or(_) => false,
        CheckV::And(items) => all_no_or(items),
        CheckV::If(a, b, c) => no_or(*a) && no_or(*b) && no_or(*c),
        CheckV::Pair(a, b) => no_or(*a) && no_or(*b),
        _ => true,
    }
}

/// Whether no disjunction occurs in `checks`.
pub open spec fn all_no_or(checks: Seq<CheckV>) -> bool
    decreases checks,
{
    if checks.len() == 0 {
        true
    } else {
        all_no_or(checks.drop_last()) && no_or(checks.last())
    }
}

proof fn lemma_all_no_or(checks: Seq<CheckV>)
    ensures
        all_no_or(checks) <==> forall|i: int| 0 <= i < checks.len() ==> #[trigger] no_or(checks[i]),
    decreases checks.len(),
{
    if checks.len() > 0 {
        let front = checks.drop_last();
        let n = front.len() as int;
        lemma_all_no_or(front);
        if all_no_or(checks) {
            assert forall|i: int| 0 <= i < checks.len() implies #[trigger] no_or(checks[i]) by {
                if i < n {
                    assert(front[i] == checks[i]);
                    assert(no_or(front[i]));
                }
            }
        }
        if forall|i: int| 0 <= i < checks.len() ==> #[trigger] no_or(checks[i]) {
            assert forall|i: int| 0 <= i < n implies #[trigger] no_or(front[i]) by {
                assert(front[i] == checks[i]);
                assert(no_or(checks[i]));
            }
            assert(no_or(checks[n]));
        }
    }
}

proof fn lemma_conj_last(checks: Seq<CheckV>, value: Value, path: Seq<TypePath>)
    requires
        checks.len() > 0,
    ensures
        conj(checks, value, path) == both(conj(checks.drop_last(), value, path), eval_check(checks.last(), value, path)),
{
}

proof fn lemma_conj_append(a: Seq<CheckV>, b: Seq<CheckV>, value: Value, path: Seq<TypePath>)
    ensures
        conj(a + b, value, path) == both(conj(a, value, path), conj(b, value, path)),
    decreases b.len(),
{
    if b.len() == 0 {
        assert(a + b =~= a);
    } else {
        assert((a + b).drop_last() =~= a + b.drop_last());
        assert((a + b).last() == b.last());
        lemma_conj_last(a + b, value, path);
        lemma_conj_last(b, value, path);
        lemma_conj_append(a, b.drop_last(), value, path);
    }
}

proof fn lemma_conj_push(a: Seq<CheckV>, item: CheckV, b: Seq<CheckV>, value: Value, path: Seq<TypePath>)
    ensures
        conj(a.push(item) + b, value, path) == both(
            conj(a, value, path),
            both(eval_check(item, value, path), conj(b, value, path)),
        ),
{
    lemma_conj_append(a.push(item), b, value, path);
    assert(a.push(item).drop_last() =~= a);
    lemma_conj_last(a.push(item), value, path);
}

proof fn lemma_conj_contains(checks: Seq<CheckV>, item: CheckV, value: Value, path: Seq<TypePath>)
    requires
        checks.contains(item),
    ensures
        conj(checks, value, path) == both(conj(checks, value, path), eval_check(item, value, path)),
{
    lemma_evals(checks, value, path);
    let j = choose|j: int| 0 <= j < checks.len() && checks[j] == item;
    if evals_defined(checks, value, path) {
        assert(eval_check(checks[j], value, path) is Some);
        if evals_hold(checks, value, path) {
            assert(eval_check(checks[j], value, path) == Some(true));
        }
    }
}

/// Whether each unit check that `seen` records is among `result`.
pub open spec fn seen_in(seen: AndSeen, result: Seq<CheckV>) -> bool {
    &&& seen.atom ==> result.contains(CheckV::IsAtom)
    &&& seen.pair ==> result.contains(CheckV::IsPair)
    &&& seen.bool_ ==> result.contains(CheckV::IsBool)
    &&& seen.nil ==> result.contains(CheckV::IsNil)
}

proof fn lemma_simplify_and_meaning(
    queue: Seq<CheckV>,
    seen: AndSeen,
    result: Seq<CheckV>,
    fuel: nat,
    value: Value,
    path: Seq<TypePath>,
)
    requires
        all_no_or(queue),
        all_no_or(result),
        seen_in(seen, result),
    ensures
        simplify_and_fuel(queue, seen, result, fuel) matches Some(r) ==> no_or(r) && (conj(result + queue, value, path) is Some
            ==> eval_check(r, value, path) == conj(result + queue, value, path)),
    decreases fuel, 1nat,
{
    lemma_all_no_or(queue);
    lemma_all_no_or(result);
    if queue.len() == 0 {
        assert(result + queue =~= result);
        if result.len() == 1 {
            assert(result.drop_last() =~= Seq::<CheckV>::empty());
            lemma_conj_last(result, value, path);
            assert(no_or(result[0]));
        }
    } else if fuel > 0 {
        let head = queue[0];
        let rest = queue.drop_first();
        let f = (fuel - 1) as nat;
        assert(no_or(head));
        lemma_simplify_meaning(head, f, value, path);
        assert forall|i: int| 0 <= i < rest.len() implies #[trigger] no_or(rest[i]) by {
            assert(rest[i] == queue[i + 1]);
        }
        lemma_all_no_or(rest);
        assert(result + queue =~= result.push(head) + rest);
        lemma_conj_push(result, head, rest, value, path);
        lemma_conj_append(result, rest, value, path);
        if let Some(item) = simplify_fuel(head, f) {
            let pushed = result.push(item);
            assert forall|i: int| 0 <= i < pushed.len() implies #[trigger] no_or(pushed[i]) by {
                if i < result.len() {
                    assert(pushed[i] == result[i]);
                }
            }
            lemma_all_no_or(pushed);
            lemma_conj_push(result, item, rest, value, path);
            assert(pushed[result.len() as int] == item);
            assert forall|u: CheckV| result.contains(u) implies pushed.contains(u) by {
                let j = choose|j: int| 0 <= j < result.len() && result[j] == u;
                assert(pushed[j] == u);
            }
            match item {
                CheckV::Trivial => {
                    lemma_simplify_and_meaning(rest, seen, result, f, value, path);
                },
                CheckV::IsAtom => if seen.atom {
                    lemma_conj_contains(result, item, value, path);
                    lemma_simplify_and_meaning(rest, seen, result, f, value, path);
                } else {
                    lemma_simplify_and_meaning(rest, AndSeen { atom: true, ..seen }, pushed, f, value, path);
                },
                CheckV::IsPair => if seen.pair {
                    lemma_conj_contains(result, item, value, path);
                    lemma_simplify_and_meaning(rest, seen, result, f, value, path);
                } else {
                    lemma_simplify_and_meaning(rest, AndSeen { pair: true, ..seen }, pushed, f, value, path);
                },
                CheckV::IsBool => if seen.bool_ {
                    lemma_conj_contains(result, item, value, path);
                    lemma_simplify_and_meaning(rest, seen, result, f, value, path);
                } else {
                    lemma_simplify_and_meaning(rest, AndSeen { bool_: true, ..seen }, pushed, f, value, path);
                },
                CheckV::IsNil => if seen.nil {
                    lemma_conj_contains(result, item, value, path);
                    lemma_simplify_and_meaning(rest, seen, result, f, value, path);
                } else {
                    lemma_simplify_and_meaning(rest, AndSeen { nil: true, ..seen }, pushed, f, value, path);
                },
                CheckV::And(children) => {
                    lemma_all_no_or(children);
                    assert forall|i: int| 0 <= i < (rest + children).len() implies #[trigger] no_or(
                        (rest + children)[i],
                    ) by {
                        if i < rest.len() {
                            assert((rest + children)[i] == rest[i]);
                        } else {
                            assert((rest + children)[i] == children[i - rest.len()]);
                        }
                    }
                    lemma_all_no_or(rest + children);
                    lemma_conj_append(result, rest + children, value, path);
                    lemma_conj_append(rest, children, value, path);
                    lemma_simplify_and_meaning(rest + children, seen, result, f, value, path);
                },
                _ => {
                    lemma_simplify_and_meaning(rest, seen, pushed, f, value, path);
                },
            }
        }
    }
}

proof fn lemma_simplify_meaning(check: CheckV, fuel: nat, value: Value, path: Seq<TypePath>)
    requires
        no_or(check),
    ensures
        simplify_fuel(check, fuel) matches Some(r) ==> no_or(r) && (eval_check(check, value, path) is Some
            ==> eval_check(r, value, path) == eval_check(check, value, path)),
    decreases fuel, 0nat,
{
    if fuel > 0 {
        let f = (fuel - 1) as nat;
        match check {
            CheckV::And(items) => {
                assert(Seq::<CheckV>::empty() + items =~= items);
                lemma_simplify_and_meaning(
                    items,
                    AndSeen { atom: false, pair: false, bool_: false, nil: false },
                    seq![],
                    f,
                    value,
                    path,
                );
            },
            CheckV::If(a, b, c) => {
                lemma_simplify_meaning(*a, f, value, path);
                lemma_simplify_meaning(*b, f, value, path);
                lemma_simplify_meaning(*c, f, value, path);
            },
            CheckV::Pair(a, b) => {
                lemma_simplify_meaning(*a, f, value, path.push(TypePath::First));
                lemma_simplify_meaning(*b, f, value, path.push(TypePath::Rest));
            },
            _ => {},
        }
    }
}

/// Simplifying a check with no disjunction keeps what it means: on every
/// value where the check is defined, the simplified check is defined and
/// holds exactly when the check does.
pub proof fn law_simplify_keeps_meaning(check: CheckV, value: Value)
    requires
        no_or(check),
        simplify_terminates(check),
        eval_check(check, value, seq![]) is Some,
    ensures
        eval_check(simplified(check), value, seq![]) == eval_check(check, value, seq![]),
{
    let fuel = choose|fuel: nat| #[trigger] simplify_fuel(check, fuel) is Some;
    lemma_simplify_meaning(check, fuel, value, seq![]);
}

/// Whether every simplification of `check` is a conjunction that tests
/// whether the value is an atom or a pair.
pub open spec fn shape_guarded(check: CheckV) -> bool {
    forall|fuel: nat| #[trigger] simplify_fuel(check, fuel) matches Some(r) ==> r is And && first_shape(
        r->And_0,
    ) is Some
}

proof fn lemma_first_shape(checks: Seq<CheckV>)
    ensures
        first_shape(checks) matches Some(c) ==> (c is IsAtom || c is IsPair) && checks.contains(c),
    decreases checks.len(),
{
    if checks.len() > 0 {
        lemma_first_shape(checks.drop_first());
        if let Some(c) = first_shape(checks.drop_first()) {
            if !(checks[0] is IsAtom || checks[0] is IsPair) {
                let j = choose|j: int| 0 <= j < checks.drop_first().len() && checks.drop_first()[j] == c;
                assert(checks[j + 1] == c);
            }
        }
        if checks[0] is IsAtom || checks[0] is IsPair {
            assert(checks[0] == checks[0]);
            assert(checks.contains(checks[0]));
        }
    }
}

proof fn lemma_evals_any(checks: Seq<CheckV>, value: Value, path: Seq<TypePath>)
    ensures
        evals_any(checks, value, path) <==> exists|i: int|
            0 <= i < checks.len() && #[trigger] eval_check(checks[i], value, path) == Some(true),
    decreases checks.len(),
{
    if checks.len() > 0 {
        let front = checks.drop_last();
        lemma_evals_any(front, value, path);
        if evals_any(front, value, path) {
            let i = choose|i: int| 0 <= i < front.len() && #[trigger] eval_check(front[i], value, path) == Some(true);
            assert(checks[i] == front[i]);
        }
        if eval_check(checks.last(), value, path) == Some(true) {
            assert(eval_check(checks[checks.len() - 1], value, path) == Some(true));
        }
        if exists|i: int| 0 <= i < checks.len() && #[trigger] eval_check(checks[i], value, path) == Some(true) {
            let i = choose|i: int| 0 <= i < checks.len() && #[trigger] eval_check(checks[i], value, path) == Some(true);
            if i < front.len() {
                assert(front[i] == checks[i]);
            }
        }
    }
}

proof fn lemma_evals_any_front(checks: Seq<CheckV>, value: Value, path: Seq<TypePath>)
    requires
        checks.len() > 0,
    ensures
        evals_any(checks, value, path) == (eval_check(checks[0], value, path) == Some(true) || evals_any(
            checks.drop_first(),
            value,
            path,
        )),
{
    let rest = checks.drop_first();
    lemma_evals_any(checks, value, path);
    lemma_evals_any(rest, value, path);
    if evals_any(rest, value, path) {
        let i = choose|i: int| 0 <= i < rest.len() && #[trigger] eval_check(rest[i], value, path) == Some(true);
        assert(checks[i + 1] == rest[i]);
    }
    if evals_any(checks, value, path) {
        let i = choose|i: int| 0 <= i < checks.len() && #[trigger] eval_check(checks[i], value, path) == Some(true);
        if i > 0 {
            assert(rest[i - 1] == checks[i]);
        }
    }
}

proof fn lemma_evals_push(checks: Seq<CheckV>, item: CheckV, value: Value, path: Seq<TypePath>)
    ensures
        evals_defined(checks.push(item), value, path) == (evals_defined(checks, value, path) && eval_check(
            item,
            value,
            path,
        ) is Some),
        evals_any(checks.push(item), value, path) == (evals_any(checks, value, path) || eval_check(
            item,
            value,
            path,
        ) == Some(true)),
{
    assert(checks.push(item).drop_last() =~= checks);
}

/// The shape test that `without_shape` removes.
pub open spec fn shape_test(atom: bool) -> CheckV {
    if atom {
        CheckV::IsAtom
    } else {
        CheckV::IsPair
    }
}

proof fn lemma_conj_without(checks: Seq<CheckV>, atom: bool, value: Value, path: Seq<TypePath>)
    requires
        value_at(value, path) is Some,
    ensures
        conj(checks, value, path) == both(
            conj(without_shape(checks, atom), value, path),
            if checks.contains(shape_test(atom)) {
                eval_check(shape_test(atom), value, path)
            } else {
                Some(true)
            },
        ),
    decreases checks.len(),
{
    if checks.len() == 0 {
        assert(without_shape(checks, atom) =~= checks);
    } else {
        let head = checks[0];
        let rest = checks.drop_first();
        lemma_conj_without(rest, atom, value, path);
        assert(checks =~= seq![head] + rest);
        lemma_conj_append(seq![head], rest, value, path);
        assert(seq![head].drop_last() =~= Seq::<CheckV>::empty());
        lemma_conj_last(seq![head], value, path);
        assert(checks.contains(shape_test(atom)) == (head == shape_test(atom) || rest.contains(shape_test(atom))))
            by {
            if checks.contains(shape_test(atom)) && head != shape_test(atom) {
                let j = choose|j: int| 0 <= j < checks.len() && checks[j] == shape_test(atom);
                assert(rest[j - 1] == checks[j]);
            }
            if rest.contains(shape_test(atom)) {
                let j = choose|j: int| 0 <= j < rest.len() && rest[j] == shape_test(atom);
                assert(checks[j + 1] == rest[j]);
            }
            if head == shape_test(atom) {
                assert(checks[0] == shape_test(atom));
            }
        }
        let w = without_shape(rest, atom);
        if (atom && head is IsAtom) || (!atom && head is IsPair) {
            assert(head == shape_test(atom));
        } else {
            assert(head != shape_test(atom));
            lemma_conj_append(seq![head], w, value, path);
        }
    }
}

proof fn lemma_simplify_or_meaning(
    queue: Seq<CheckV>,
    atoms: Seq<CheckV>,
    pairs: Seq<CheckV>,
    fuel: nat,
    value: Value,
    path: Seq<TypePath>,
)
    requires
        value_at(value, path) is Some,
        forall|i: int| 0 <= i < queue.len() ==> no_or(#[trigger] queue[i]) && shape_guarded(queue[i]),
        evals_defined(queue, value, path),
        evals_defined(atoms, value, path),
        evals_defined(pairs, value, path),
    ensures
        simplify_or_fuel(queue, atoms, pairs, fuel) matches Some(r) ==> eval_check(r, value, path) == Some(
            if value_at(value, path)->Some_0 is Pair {
                evals_any(pairs, value, path) || evals_any(queue, value, path)
            } else {
                evals_any(atoms, value, path) || evals_any(queue, value, path)
            },
        ),
    decreases fuel,
{
    let pair = value_at(value, path)->Some_0 is Pair;
    if queue.len() == 0 {
        let a = CheckV::Or(atoms);
        let p = CheckV::Or(pairs);
        assert(seq![CheckV::IsPair, p].drop_last() =~= seq![CheckV::IsPair]);
        assert(seq![CheckV::IsAtom, a].drop_last() =~= seq![CheckV::IsAtom]);
        assert(seq![CheckV::IsPair].drop_last() =~= Seq::<CheckV>::empty());
        assert(seq![CheckV::IsAtom].drop_last() =~= Seq::<CheckV>::empty());
        if atoms.len() == 0 {
            assert(!evals_any(atoms, value, path));
        }
        if pairs.len() == 0 {
            assert(!evals_any(pairs, value, path));
        }
        assert(eval_check(a, value, path) == Some(evals_any(atoms, value, path)));
        assert(eval_check(p, value, path) == Some(evals_any(pairs, value, path)));
        assert(!evals_any(queue, value, path));
        let sa = seq![CheckV::IsAtom, a];
        let sp = seq![CheckV::IsPair, p];
        assert(sa.last() == a && sp.last() == p);
        assert(eval_check(CheckV::IsAtom, value, path) == Some(!pair));
        assert(eval_check(CheckV::IsPair, value, path) == Some(pair));
        assert(evals_defined(Seq::<CheckV>::empty(), value, path));
        assert(evals_hold(Seq::<CheckV>::empty(), value, path));
        assert(evals_defined(seq![CheckV::IsPair], value, path));
        assert(evals_defined(seq![CheckV::IsAtom], value, path));
        assert(evals_hold(seq![CheckV::IsPair], value, path) == pair);
        assert(evals_hold(seq![CheckV::IsAtom], value, path) == !pair);
        assert(evals_defined(sa, value, path) && evals_defined(sp, value, path));
        assert(evals_hold(sa, value, path) == (!pair && evals_any(atoms, value, path)));
        assert(evals_hold(sp, value, path) == (pair && evals_any(pairs, value, path)));
        assert(eval_check(finish_or(atoms, pairs), value, path) == Some(
            if pair {
                evals_any(pairs, value, path)
            } else {
                evals_any(atoms, value, path)
            },
        ));
    } else if fuel > 0 {
        let head = queue[0];
        let rest = queue.drop_first();
        let f = (fuel - 1) as nat;
        lemma_evals(queue, value, path);
        lemma_evals(rest, value, path);
        assert forall|i: int| 0 <= i < rest.len() implies #[trigger] eval_check(rest[i], value, path) is Some by {
            assert(rest[i] == queue[i + 1]);
        }
        assert forall|i: int| 0 <= i < rest.len() implies no_or(#[trigger] rest[i]) && shape_guarded(rest[i]) by {
            assert(rest[i] == queue[i + 1]);
        }
        assert(eval_check(queue[0], value, path) is Some);
        assert(no_or(head) && shape_guarded(head));
        lemma_evals_any_front(queue, value, path);
        lemma_simplify_meaning(head, f, value, path);
        if let Some(item) = simplify_fuel(head, f) {
            assert(item is And && first_shape(item->And_0) is Some);
            let children = item->And_0;
            lemma_first_shape(children);
            let s = first_shape(children)->Some_0;
            let atom = s is IsAtom;
            assert(s == shape_test(atom));
            let w = without_shape(children, atom);
            lemma_conj_without(children, atom, value, path);
            assert(eval_check(item, value, path) == conj(children, value, path));
            assert(eval_check(CheckV::And(w), value, path) == conj(w, value, path));
            lemma_evals_push(atoms, CheckV::And(w), value, path);
            lemma_evals_push(pairs, CheckV::And(w), value, path);
            assert(children.contains(shape_test(atom)));
            assert(eval_check(head, value, path) == eval_check(item, value, path));
            assert(eval_check(shape_test(atom), value, path) == Some(if atom { !pair } else { pair }));
            assert(conj(w, value, path) is Some);
            if atom {
                assert(simplify_or_fuel(queue, atoms, pairs, fuel) == simplify_or_fuel(rest, atoms.push(CheckV::And(w)), pairs, f));
                lemma_simplify_or_meaning(rest, atoms.push(CheckV::And(w)), pairs, f, value, path);
            } else {
                assert(simplify_or_fuel(queue, atoms, pairs, fuel) == simplify_or_fuel(rest, atoms, pairs.push(CheckV::And(w)), f));
                lemma_simplify_or_meaning(rest, atoms, pairs.push(CheckV::And(w)), f, value, path);
            }
        }
    }
}

/// Simplifying a disjunction of checks that each test whether the value is
/// an atom or a pair, with no disjunction inside them, keeps what it means:
/// on every value where the disjunction is defined, the simplified check is
/// defined and holds exactly when the disjunction does. So the alternatives
/// that ask for a pair stay behind a pair test, and those that ask for an
/// atom behind an atom test.
pub proof fn law_simplify_disjunction_keeps_meaning(items: Seq<CheckV>, value: Value)
    requires
        forall|i: int| 0 <= i < items.len() ==> no_or(#[trigger] items[i]) && shape_guarded(items[i]),
        simplify_terminates(CheckV::Or(items)),
        eval_check(CheckV::Or(items), value, seq![]) is Some,
    ensures
        eval_check(simplified(CheckV::Or(items)), value, seq![]) == eval_check(CheckV::Or(items), value, seq![]),
{
    let fuel = choose|fuel: nat| #[trigger] simplify_fuel(CheckV::Or(items), fuel) is Some;
    assert(value_at(value, seq![]) == Some(value));
    lemma_simplify_or_meaning(items, seq![], seq![], (fuel - 1) as nat, value, seq![]);
}

} // verus!
