//! The runtime check that a value of a union type has a given type.
use vstd::prelude::*;

use crate::check::{Check, CheckV, Value, eval_check, check_view, checks_view, lemma_checks_view, simplify_check, simplified, simplify_terminates};

verus! {

broadcast use vstd::std_specs::vec::group_vec_axioms;

/// The identifier of a type in a type system.
#[derive(Debug, Clone, Copy, PartialEq, Eq, Hash, Structural)]
pub struct TypeId(pub usize);

/// A type, as the runtime checks read it.
#[derive(Debug, Clone)]
pub enum Type {
    /// A reference to another type, not yet resolved.
    Ref(TypeId),
    Unknown,
    Never,
    Bytes,
    Bytes32,
    PublicKey,
    Int,
    Bool,
    Nil,
    Union(Vec<TypeId>),
    Pair(TypeId, TypeId),
}

/// The types, each found by its identifier.
#[derive(Debug, Clone)]
pub struct TypeSystem {
    pub types: Vec<Type>,
}

/// Why a value of one type cannot be checked against another.
#[derive(Debug, Clone, Copy, PartialEq, Eq, Structural)]
pub enum CheckError {
    Recursive(TypeId, TypeId),
    Impossible(TypeId, TypeId),
}

/// What the members of a union are, counted by kind.
pub struct Tally {
    pub length: nat,
    pub atoms: nat,
    pub bools: nat,
    pub nils: nat,
    pub bytes32s: nat,
    pub public_keys: nat,
    pub pairs: Seq<(TypeId, TypeId)>,
}

pub open spec fn empty_tally() -> Tally {
    Tally { length: 0, atoms: 0, bools: 0, nils: 0, bytes32s: 0, public_keys: 0, pairs: seq![] }
}

/// Counts the members of the unions in `queue`, nested unions spread in
/// place, within `fuel` steps: fails on a member already being checked
/// against `rhs`; none when the steps run out or a member is unresolved or
/// missing.
pub open spec fn tally_fuel(
    types: Seq<Type>,
    queue: Seq<TypeId>,
    rhs: TypeId,
    visited: Set<(TypeId, TypeId)>,
    t: Tally,
    fuel: nat,
) -> Option<Result<Tally, CheckError>>
    decreases fuel,
{
    if queue.len() == 0 {
        Some(Ok(t))
    } else if fuel == 0 {
        None
    } else {
        let item = queue[0];
        let rest = queue.drop_first();
        let f = (fuel - 1) as nat;
        if visited.contains((item, rhs)) {
            Some(Err(CheckError::Recursive(item, rhs)))
        } else if item.0 >= types.len() {
            None
        } else {
            let counted = Tally { length: t.length + 1, ..t };
            match types[item.0 as int] {
                Type::Ref(_) => None,
                Type::Union(children) => tally_fuel(types, rest + children@, rhs, visited, counted, f),
                Type::Unknown => tally_fuel(types, rest, rhs, visited, counted, f),
                Type::Never => tally_fuel(types, rest, rhs, visited, t, f),
                Type::Bytes => tally_fuel(types, rest, rhs, visited, Tally { atoms: t.atoms + 1, ..counted }, f),
                Type::Int => tally_fuel(types, rest, rhs, visited, Tally { atoms: t.atoms + 1, ..counted }, f),
                Type::Bytes32 => tally_fuel(
                    types,
                    rest,
                    rhs,
                    visited,
                    Tally { atoms: t.atoms + 1, bytes32s: t.bytes32s + 1, ..counted },
                    f,
                ),
                Type::PublicKey => tally_fuel(
                    types,
                    rest,
                    rhs,
                    visited,
                    Tally { atoms: t.atoms + 1, public_keys: t.public_keys + 1, ..counted },
                    f,
                ),
                Type::Bool => tally_fuel(
                    types,
                    rest,
                    rhs,
                    visited,
                    Tally { atoms: t.atoms + 1, bools: t.bools + 1, ..counted },
                    f,
                ),
                Type::Nil => tally_fuel(
                    types,
                    rest,
                    rhs,
                    visited,
                    Tally { atoms: t.atoms + 1, nils: t.nils + 1, bools: t.bools + 1, ..counted },
                    f,
                ),
                Type::Pair(first, second) => tally_fuel(
                    types,
                    rest,
                    rhs,
                    visited,
                    Tally { pairs: t.pairs.push((first, second)), ..counted },
                    f,
                ),
            }
        }
    }
}

pub open spec fn firsts(pairs: Seq<(TypeId, TypeId)>) -> Seq<TypeId> {
    pairs.map_values(|p: (TypeId, TypeId)| p.0)
}

pub open spec fn seconds(pairs: Seq<(TypeId, TypeId)>) -> Seq<TypeId> {
    pairs.map_values(|p: (TypeId, TypeId)| p.1)
}

/// The check for a value whose members are tallied in `t` against the type
/// `rhs`, with the pair halves checked by `first` and `rest` when `rhs` is a
/// pair.
pub open spec fn check_from_tally(
    types: Seq<Type>,
    original: TypeId,
    rhs: TypeId,
    t: Tally,
    first: Option<Result<CheckV, CheckError>>,
    rest: Option<Result<CheckV, CheckError>>,
) -> Option<Result<CheckV, CheckError>> {
    let always_atom = t.atoms == t.length;
    let always_pair = t.pairs.len() == t.length;
    let always_bool = t.bools == t.length;
    let always_nil = t.nils == t.length;
    let always_bytes32 = t.bytes32s == t.length;
    let always_public_key = t.public_keys == t.length;
    let and2 = |a: CheckV, b: CheckV| CheckV::And(seq![a, b]);
    if rhs.0 >= types.len() {
        None
    } else {
        match types[rhs.0 as int] {
            Type::Unknown => Some(Ok(CheckV::Trivial)),
            Type::Never => Some(Err(CheckError::Impossible(original, rhs))),
            Type::Ref(_) => None,
            Type::Union(_) => None,
            Type::Bytes => Some(Ok(if always_atom { CheckV::Trivial } else { CheckV::IsAtom })),
            Type::Int => Some(Ok(if always_atom { CheckV::Trivial } else { CheckV::IsAtom })),
            Type::Bool => Some(Ok(if always_bool {
                CheckV::Trivial
            } else if always_atom {
                CheckV::IsBool
            } else {
                and2(CheckV::IsAtom, CheckV::IsBool)
            })),
            Type::Nil => Some(Ok(if always_nil {
                CheckV::Trivial
            } else if always_atom {
                CheckV::IsNil
            } else {
                and2(CheckV::IsAtom, CheckV::IsNil)
            })),
            Type::Bytes32 => Some(Ok(if always_bytes32 {
                CheckV::Trivial
            } else if always_atom {
                CheckV::Length(32)
            } else {
                and2(CheckV::IsAtom, CheckV::Length(32))
            })),
            Type::PublicKey => Some(Ok(if always_public_key {
                CheckV::Trivial
            } else if always_atom {
                CheckV::Length(48)
            } else {
                and2(CheckV::IsAtom, CheckV::Length(48))
            })),
            Type::Pair(_, _) => if always_atom {
                Some(Err(CheckError::Impossible(original, rhs)))
            } else {
                match first {
                    None => None,
                    Some(Err(e)) => Some(Err(e)),
                    Some(Ok(a)) => match rest {
                        None => None,
                        Some(Err(e)) => Some(Err(e)),
                        Some(Ok(b)) => {
                            let pair = CheckV::Pair(Box::new(a), Box::new(b));
                            Some(Ok(if always_pair { pair } else { and2(CheckV::IsPair, pair) }))
                        },
                    },
                }
            },
        }
    }
}

/// The check that a value of the union of `items` has the type `rhs`,
/// within `fuel` steps; none when the steps run out, or a type is
/// unresolved, missing, or a union on the right.
pub open spec fn union_check_fuel(
    types: Seq<Type>,
    original: TypeId,
    items: Seq<TypeId>,
    rhs: TypeId,
    visited: Set<(TypeId, TypeId)>,
    fuel: nat,
) -> Option<Result<CheckV, CheckError>>
    decreases fuel,
{
    if fuel == 0 {
        None
    } else {
        let f = (fuel - 1) as nat;
        match tally_fuel(types, items, rhs, visited, empty_tally(), f) {
            None => None,
            Some(Err(e)) => Some(Err(e)),
            Some(Ok(t)) => {
                let halves = if rhs.0 < types.len() {
                    match types[rhs.0 as int] {
                        Type::Pair(first, second) => (
                            union_check_fuel(types, original, firsts(t.pairs), first, visited, f),
                            union_check_fuel(types, original, seconds(t.pairs), second, visited, f),
                        ),
                        _ => (None, None),
                    }
                } else {
                    (None, None)
                };
                check_from_tally(types, original, rhs, t, halves.0, halves.1)
            },
        }
    }
}

/// Whether checking the union of `items` against `rhs` ends, within fewer
/// than `usize::MAX` steps, without meeting an unresolved or missing type or
/// a union on the right.
pub open spec fn union_check_defined(
    types: Seq<Type>,
    original: TypeId,
    items: Seq<TypeId>,
    rhs: TypeId,
    visited: Set<(TypeId, TypeId)>,
) -> bool {
    exists|fuel: nat| fuel < usize::MAX && #[trigger] union_check_fuel(types, original, items, rhs, visited, fuel) is Some
}

/// The check that a value of the union of `items` has the type `rhs`.
pub open spec fn union_check(
    types: Seq<Type>,
    original: TypeId,
    items: Seq<TypeId>,
    rhs: TypeId,
    visited: Set<(TypeId, TypeId)>,
) -> Result<CheckV, CheckError> {
    union_check_fuel(
        types,
        original,
        items,
        rhs,
        visited,
        choose|fuel: nat| fuel < usize::MAX && #[trigger] union_check_fuel(types, original, items, rhs, visited, fuel) is Some,
    )->Some_0
}


/// The members of a union, counted by kind.
struct Counts {
    length: usize,
    atoms: usize,
    bools: usize,
    nils: usize,
    bytes32s: usize,
    public_keys: usize,
    pairs: Vec<(TypeId, TypeId)>,
}

spec fn counts_view(c: Counts) -> Tally {
    Tally {
        length: c.length as nat,
        atoms: c.atoms as nat,
        bools: c.bools as nat,
        nils: c.nils as nat,
        bytes32s: c.bytes32s as nat,
        public_keys: c.public_keys as nat,
        pairs: c.pairs@,
    }
}

spec fn tally_within(t: Tally, steps: nat) -> bool {
    &&& t.length <= steps
    &&& t.atoms <= steps
    &&& t.bools <= steps
    &&& t.nils <= steps
    &&& t.bytes32s <= steps
    &&& t.public_keys <= steps
}

/// Whether `visited` holds the pair `(item, rhs)`.
fn visiting(visited: &Vec<(TypeId, TypeId)>, item: TypeId, rhs: TypeId) -> (result: bool)
    ensures
        result == visited@.to_set().contains((item, rhs)),
{
    let mut i: usize = 0;
    while i < visited.len()
        invariant
            i <= visited@.len(),
            forall|j: int| 0 <= j < i ==> #[trigger] visited@[j] != (item, rhs),
        decreases visited@.len() - i,
    {
        let (a, b) = visited[i];
        if a == item && b == rhs {
            assert(visited@.contains((item, rhs)));
            return true;
        }
        i += 1;
    }
    assert(!visited@.contains((item, rhs)));
    false
}

/// Counts the members of the unions in `items`, nested unions spread in
/// place.
fn tally_members(
    types: &TypeSystem,
    items: &Vec<TypeId>,
    rhs: TypeId,
    visited: &Vec<(TypeId, TypeId)>,
    Ghost(fuel): Ghost<nat>,
) -> (result: Result<Counts, CheckError>)
    requires
        tally_fuel(types.types@, items@, rhs, visited@.to_set(), empty_tally(), fuel) is Some,
        fuel < usize::MAX,
    ensures
        match result {
            Ok(c) => tally_fuel(types.types@, items@, rhs, visited@.to_set(), empty_tally(), fuel) == Some(
                Ok::<Tally, CheckError>(counts_view(c)),
            ),
            Err(e) => tally_fuel(types.types@, items@, rhs, visited@.to_set(), empty_tally(), fuel) == Some(
                Err::<Tally, CheckError>(e),
            ),
        },
{
    let ghost target = tally_fuel(types.types@, items@, rhs, visited@.to_set(), empty_tally(), fuel);
    let ghost seen = visited@.to_set();
    let mut queue: Vec<TypeId> = Vec::new();
    let mut i: usize = 0;
    while i < items.len()
        invariant
            i <= items@.len(),
            queue@ == items@.take(i as int),
        decreases items@.len() - i,
    {
        queue.push(items[i]);
        i += 1;
        assert(queue@ =~= items@.take(i as int));
    }
    assert(queue@ =~= items@);
    let mut c = Counts { length: 0, atoms: 0, bools: 0, nils: 0, bytes32s: 0, public_keys: 0, pairs: Vec::new() };
    let ghost mut f = fuel;
    assert(counts_view(c) =~= empty_tally());
    while queue.len() > 0
        invariant
            f <= fuel,
            fuel < usize::MAX,
            seen == visited@.to_set(),
            tally_within(counts_view(c), (fuel - f) as nat),
            tally_fuel(types.types@, queue@, rhs, seen, counts_view(c), f) == target,
            target == tally_fuel(types.types@, items@, rhs, visited@.to_set(), empty_tally(), fuel),
            target is Some,
        decreases f,
    {
        let ghost before = queue@;
        let item = queue.remove(0);
        let ghost rest = queue@;
        assert(item == before[0] && rest =~= before.drop_first());
        if visiting(visited, item, rhs) {
            assert(f > 0);
            assert(seen.contains((item, rhs)));
            assert(tally_fuel(types.types@, before, rhs, seen, counts_view(c), f) == Some(
                Err::<Tally, CheckError>(CheckError::Recursive(item, rhs)),
            ));
            return Err(CheckError::Recursive(item, rhs));
        }
        proof {
            f = (f - 1) as nat;
        }
        let ty = &types.types[item.0];
        match ty {
            Type::Ref(_) => {
                assert(false);
            },
            Type::Union(children) => {
                let mut k: usize = 0;
                while k < children.len()
                    invariant
                        k <= children@.len(),
                        queue@ == rest + children@.take(k as int),
                    decreases children@.len() - k,
                {
                    queue.push(children[k]);
                    k += 1;
                    assert(queue@ =~= rest + children@.take(k as int));
                }
                assert(children@.take(children@.len() as int) =~= children@);
                c.length = c.length + 1;
            },
            Type::Unknown => {
                c.length = c.length + 1;
            },
            Type::Never => {},
            Type::Bytes | Type::Int => {
                c.length = c.length + 1;
                c.atoms = c.atoms + 1;
            },
            Type::Bytes32 => {
                c.length = c.length + 1;
                c.atoms = c.atoms + 1;
                c.bytes32s = c.bytes32s + 1;
            },
            Type::PublicKey => {
                c.length = c.length + 1;
                c.atoms = c.atoms + 1;
                c.public_keys = c.public_keys + 1;
            },
            Type::Bool => {
                c.length = c.length + 1;
                c.atoms = c.atoms + 1;
                c.bools = c.bools + 1;
            },
            Type::Nil => {
                c.length = c.length + 1;
                c.atoms = c.atoms + 1;
                c.nils = c.nils + 1;
                c.bools = c.bools + 1;
            },
            Type::Pair(first, second) => {
                c.length = c.length + 1;
                c.pairs.push((*first, *second));
            },
        }
    }
    Ok(c)
}

/// The firsts, or the seconds, of `pairs`.
fn halves_of(pairs: &Vec<(TypeId, TypeId)>, first: bool) -> (result: Vec<TypeId>)
    ensures
        result@ == if first {
            firsts(pairs@)
        } else {
            seconds(pairs@)
        },
{
    let mut result: Vec<TypeId> = Vec::new();
    let mut i: usize = 0;
    while i < pairs.len()
        invariant
            i <= pairs@.len(),
            result@ == if first {
                firsts(pairs@.take(i as int))
            } else {
                seconds(pairs@.take(i as int))
            },
        decreases pairs@.len() - i,
    {
        let (a, b) = pairs[i];
        result.push(if first { a } else { b });
        i += 1;
        assert(result@ =~= if first {
            firsts(pairs@.take(i as int))
        } else {
            seconds(pairs@.take(i as int))
        });
    }
    assert(pairs@.take(pairs@.len() as int) =~= pairs@);
    result
}

/// `[a, b]` as a conjunction.
fn and2(a: Check, b: Check) -> (result: Check)
    ensures
        result@ == CheckV::And(seq![a@, b@]),
{
    let mut items: Vec<Check> = Vec::new();
    items.push(a);
    items.push(b);
    proof {
        lemma_checks_view(items@);
        assert(checks_view(items@) =~= seq![a@, b@]);
    }
    Check::And(items)
}

fn check_with_fuel(
    types: &TypeSystem,
    original: TypeId,
    items: &Vec<TypeId>,
    rhs: TypeId,
    visited: &mut Vec<(TypeId, TypeId)>,
    Ghost(fuel): Ghost<nat>,
) -> (result: Result<Check, CheckError>)
    requires
        union_check_fuel(types.types@, original, items@, rhs, old(visited)@.to_set(), fuel) is Some,
        fuel < usize::MAX,
    ensures
        final(visited)@ == old(visited)@,
        match result {
            Ok(c) => union_check_fuel(types.types@, original, items@, rhs, old(visited)@.to_set(), fuel)
                == Some(Ok::<CheckV, CheckError>(c@)),
            Err(e) => union_check_fuel(types.types@, original, items@, rhs, old(visited)@.to_set(), fuel)
                == Some(Err::<CheckV, CheckError>(e)),
        },
    decreases fuel,
{
    let ghost seen = visited@.to_set();
    let ghost f = (fuel - 1) as nat;
    let t = match tally_members(types, items, rhs, visited, Ghost(f)) {
        Ok(t) => t,
        Err(e) => return Err(e),
    };
    let ghost tv = counts_view(t);
    let always_atom = t.atoms == t.length;
    let always_pair = t.pairs.len() == t.length;
    let always_bool = t.bools == t.length;
    let always_nil = t.nils == t.length;
    let always_bytes32 = t.bytes32s == t.length;
    let always_public_key = t.public_keys == t.length;
    let ty = &types.types[rhs.0];
    match ty {
        Type::Unknown => Ok(Check::Trivial),
        Type::Never => Err(CheckError::Impossible(original, rhs)),
        Type::Ref(_) | Type::Union(_) => {
            assert(false);
            Ok(Check::Trivial)
        },
        Type::Bytes | Type::Int => Ok(if always_atom { Check::Trivial } else { Check::IsAtom }),
        Type::Bool => Ok(if always_bool {
            Check::Trivial
        } else if always_atom {
            Check::IsBool
        } else {
            and2(Check::IsAtom, Check::IsBool)
        }),
        Type::Nil => Ok(if always_nil {
            Check::Trivial
        } else if always_atom {
            Check::IsNil
        } else {
            and2(Check::IsAtom, Check::IsNil)
        }),
        Type::Bytes32 => Ok(if always_bytes32 {
            Check::Trivial
        } else if always_atom {
            Check::Length(32)
        } else {
            and2(Check::IsAtom, Check::Length(32))
        }),
        Type::PublicKey => Ok(if always_public_key {
            Check::Trivial
        } else if always_atom {
            Check::Length(48)
        } else {
            and2(Check::IsAtom, Check::Length(48))
        }),
        Type::Pair(first, second) => {
            if always_atom {
                return Err(CheckError::Impossible(original, rhs));
            }
            let first_items = halves_of(&t.pairs, true);
            let rest_items = halves_of(&t.pairs, false);
            let a = match check_with_fuel(types, original, &first_items, *first, visited, Ghost(f)) {
                Ok(a) => a,
                Err(e) => return Err(e),
            };
            let b = match check_with_fuel(types, original, &rest_items, *second, visited, Ghost(f)) {
                Ok(b) => b,
                Err(e) => return Err(e),
            };
            let pair = Check::Pair(Box::new(a), Box::new(b));
            assert(pair@ == CheckV::Pair(Box::new(a@), Box::new(b@)));
            if always_pair {
                Ok(pair)
            } else {
                Ok(and2(Check::IsPair, pair))
            }
        },
    }
}

/// The check that a value of the union of `items` (the members of the type
/// `original`) has the type `rhs`: nothing when every member has it, a
/// shape, length, bool or nil test otherwise, and pair halves checked
/// member by member. Fails when a member is already being checked against
/// `rhs`, and when no member can have `rhs`.
pub fn check_union_against_rhs(
    types: &TypeSystem,
    original: TypeId,
    items: &Vec<TypeId>,
    rhs: TypeId,
    visited: &mut Vec<(TypeId, TypeId)>,
) -> (result: Result<Check, CheckError>)
    requires
        union_check_defined(types.types@, original, items@, rhs, old(visited)@.to_set()),
    ensures
        final(visited)@ == old(visited)@,
        match result {
            Ok(c) => union_check(types.types@, original, items@, rhs, old(visited)@.to_set())
                == Ok::<CheckV, CheckError>(c@),
            Err(e) => union_check(types.types@, original, items@, rhs, old(visited)@.to_set())
                == Err::<CheckV, CheckError>(e),
        },
{
    let ghost fuel = choose|fuel: nat|
        fuel < usize::MAX && #[trigger] union_check_fuel(types.types@, original, items@, rhs, old(visited)@.to_set(), fuel) is Some;
    check_with_fuel(types, original, items, rhs, visited, Ghost(fuel))
}


// ---------------------------------------------------------------------------
// Checking one type against another.

/// Whether `t` is an atom type.
pub open spec fn is_atom_type(t: Type) -> bool {
    t is Bytes || t is Bytes32 || t is PublicKey || t is Int || t is Bool || t is Nil
}

/// The check that a value of the atom type `l` has the atom type `r`; none
/// when no such value can.
pub open spec fn atom_check(l: Type, r: Type) -> Option<CheckV> {
    if (l is Bytes || l is Int) && r is Bool {
        Some(CheckV::IsBool)
    } else if (l is Bytes || l is Int || l is Bool) && r is Nil {
        Some(CheckV::IsNil)
    } else if (l is Bytes || l is Int) && r is PublicKey {
        Some(CheckV::Length(48))
    } else if (l is Bytes || l is Int) && r is Bytes32 {
        Some(CheckV::Length(32))
    } else if r is Bytes || r is Int || (l is Bytes32 && r is Bytes32) || (l is PublicKey && r is PublicKey)
        || (l is Bool && r is Bool) || (l is Nil && r is Nil) || (l is Nil && r is Bool) {
        Some(CheckV::Trivial)
    } else {
        None
    }
}

/// Whether an atom of `bytes` is a value of the atom type `t`: any atom is
/// bytes and an integer, a `Bytes32` has 32 bytes, a public key 48, a bool
/// is empty or the single byte one, and nil is empty.
pub open spec fn atom_value_has_type(bytes: Seq<u8>, t: Type) -> bool {
    match t {
        Type::Bytes | Type::Int => true,
        Type::Bytes32 => bytes.len() == 32,
        Type::PublicKey => bytes.len() == 48,
        Type::Bool => bytes.len() == 0 || bytes == seq![1u8],
        Type::Nil => bytes.len() == 0,
        _ => false,
    }
}

/// The check between two atom types is exact: on every value of the left
/// type it holds exactly when the value has the right type, and there is
/// none only where no value of the left type has the right type.
pub proof fn law_atom_check_is_exact(l: Type, r: Type, bytes: Seq<u8>)
    requires
        is_atom_type(l),
        is_atom_type(r),
        atom_value_has_type(bytes, l),
    ensures
        atom_check(l, r) matches Some(c) ==> eval_check(c, Value::Atom(bytes), seq![]) == Some(
            atom_value_has_type(bytes, r),
        ),
        atom_check(l, r) is None ==> !atom_value_has_type(bytes, r),
{
}

/// The check between two atom types is there only where some value of the
/// left type has the right type, and it tests nothing only where every
/// value of the left type has it.
pub proof fn law_atom_check_is_needed(l: Type, r: Type)
    requires
        is_atom_type(l),
        is_atom_type(r),
    ensures
        atom_check(l, r) is Some ==> exists|b: Seq<u8>|
            #[trigger] atom_value_has_type(b, l) && atom_value_has_type(b, r),
        atom_check(l, r) matches Some(c) && !(c is Trivial) ==> exists|b: Seq<u8>|
            #[trigger] atom_value_has_type(b, l) && !atom_value_has_type(b, r),
{
    let empty = Seq::<u8>::empty();
    let one = seq![1u8];
    let two = seq![2u8];
    let b32 = Seq::<u8>::new(32, |i: int| 0u8);
    let b48 = Seq::<u8>::new(48, |i: int| 0u8);
    assert(one.len() == 1 && two.len() == 1 && two[0] != one[0]);
    assert(two != one);
    assert(b32.len() == 32 && b48.len() == 48);
    let shared = if l is Bytes32 || r is Bytes32 {
        b32
    } else if l is PublicKey || r is PublicKey {
        b48
    } else {
        empty
    };
    let apart = if r is Bool {
        two
    } else if r is Nil {
        one
    } else {
        empty
    };
    if atom_check(l, r) is Some {
        assert(atom_value_has_type(shared, l) && atom_value_has_type(shared, r));
    }
    if atom_check(l, r) matches Some(c) && !(c is Trivial) {
        assert(atom_value_has_type(apart, l) && !atom_value_has_type(apart, r));
    }
}

/// Checking one atom type against another, of a pair not already being
/// checked, gives a check that holds of a value of the left type exactly
/// when it has the right type, and fails as impossible only where no value
/// of the left type has the right type.
pub proof fn law_check_of_atom_types(types: Seq<Type>, lhs: TypeId, rhs: TypeId, visited: Set<(TypeId, TypeId)>, bytes: Seq<u8>)
    requires
        type_check_defined(types, lhs, rhs, visited),
        !visited.contains((lhs, rhs)),
        lhs.0 < types.len(),
        rhs.0 < types.len(),
        is_atom_type(types[lhs.0 as int]),
        is_atom_type(types[rhs.0 as int]),
        atom_value_has_type(bytes, types[lhs.0 as int]),
    ensures
        match type_check(types, lhs, rhs, visited).0 {
            Ok(c) => eval_check(c, Value::Atom(bytes), seq![]) == Some(atom_value_has_type(bytes, types[rhs.0 as int])),
            Err(e) => e == CheckError::Impossible(lhs, rhs) && !atom_value_has_type(bytes, types[rhs.0 as int]),
        },
{
    law_atom_check_is_exact(types[lhs.0 as int], types[rhs.0 as int], bytes);
}

/// The check that a value of type `lhs` has type `rhs`, within `fuel`
/// steps, with the pairs of types being checked in `visited`; with it, the
/// pairs left in `visited` (those being checked when a failure came). None
/// when the steps run out or a type is unresolved, missing, or met where
/// the check cannot handle it.
pub open spec fn check_type_fuel(
    types: Seq<Type>,
    lhs: TypeId,
    rhs: TypeId,
    visited: Set<(TypeId, TypeId)>,
    fuel: nat,
) -> Option<(Result<CheckV, CheckError>, Set<(TypeId, TypeId)>)>
    decreases fuel, 0nat,
{
    if fuel == 0 {
        None
    } else if visited.contains((lhs, rhs)) {
        Some((Err(CheckError::Recursive(lhs, rhs)), visited))
    } else if lhs.0 >= types.len() || rhs.0 >= types.len() {
        None
    } else {
        let inner = visited.insert((lhs, rhs));
        let f = (fuel - 1) as nat;
        let l = types[lhs.0 as int];
        let r = types[rhs.0 as int];
        if l is Ref || r is Ref {
            None
        } else if l is Unknown || r is Unknown || l is Never {
            Some((Ok(CheckV::Trivial), visited))
        } else if r is Never {
            Some((Err(CheckError::Impossible(lhs, rhs)), inner))
        } else if is_atom_type(l) && is_atom_type(r) {
            match atom_check(l, r) {
                Some(c) => Some((Ok(c), visited)),
                None => Some((Err(CheckError::Impossible(lhs, rhs)), inner)),
            }
        } else if r is Union {
            match or_items_fuel(types, lhs, r->Union_0@, inner, seq![], f) {
                None => None,
                Some((Ok(checks), _)) => Some((Ok(CheckV::Or(checks)), visited)),
                Some((Err(e), left)) => Some((Err(e), left)),
            }
        } else if l is Union {
            match union_check_fuel(types, lhs, l->Union_0@, rhs, inner, f) {
                None => None,
                Some(Ok(c)) => Some((Ok(c), visited)),
                Some(Err(e)) => Some((Err(e), inner)),
            }
        } else if !(l is Pair && r is Pair) {
            Some((Err(CheckError::Impossible(lhs, rhs)), inner))
        } else {
            match check_type_fuel(types, l->Pair_0, r->Pair_0, inner, f) {
                None => None,
                Some((Err(e), left)) => Some((Err(e), left)),
                Some((Ok(first), after)) => match check_type_fuel(types, l->Pair_1, r->Pair_1, after, f) {
                    None => None,
                    Some((Err(e), left)) => Some((Err(e), left)),
                    Some((Ok(rest), _)) => Some(
                        (Ok(CheckV::Pair(Box::new(first), Box::new(rest))), visited),
                    ),
                },
            }
        }
    }
}

/// The checks of `lhs` against each of `items`, after `done`.
pub open spec fn or_items_fuel(
    types: Seq<Type>,
    lhs: TypeId,
    items: Seq<TypeId>,
    visited: Set<(TypeId, TypeId)>,
    done: Seq<CheckV>,
    fuel: nat,
) -> Option<(Result<Seq<CheckV>, CheckError>, Set<(TypeId, TypeId)>)>
    decreases fuel, items.len() + 1,
{
    if items.len() == 0 {
        Some((Ok(done), visited))
    } else {
        match check_type_fuel(types, lhs, items[0], visited, fuel) {
            None => None,
            Some((Err(e), left)) => Some((Err(e), left)),
            Some((Ok(c), after)) => or_items_fuel(types, lhs, items.drop_first(), after, done.push(c), fuel),
        }
    }
}

/// Whether checking `lhs` against `rhs` ends, within fewer than
/// `usize::MAX` steps, without meeting a type it cannot handle.
pub open spec fn type_check_defined(types: Seq<Type>, lhs: TypeId, rhs: TypeId, visited: Set<(TypeId, TypeId)>) -> bool {
    exists|fuel: nat| fuel < usize::MAX && #[trigger] check_type_fuel(types, lhs, rhs, visited, fuel) is Some
}

/// The check that a value of type `lhs` has type `rhs`, with the pairs left
/// being checked.
pub open spec fn type_check(types: Seq<Type>, lhs: TypeId, rhs: TypeId, visited: Set<(TypeId, TypeId)>) -> (
    Result<CheckV, CheckError>,
    Set<(TypeId, TypeId)>,
) {
    check_type_fuel(
        types,
        lhs,
        rhs,
        visited,
        choose|fuel: nat| fuel < usize::MAX && #[trigger] check_type_fuel(types, lhs, rhs, visited, fuel) is Some,
    )->Some_0
}

/// `visited` without its last pair.
fn forget_last(visited: &mut Vec<(TypeId, TypeId)>)
    requires
        old(visited)@.len() > 0,
    ensures
        final(visited)@ == old(visited)@.drop_last(),
{
    visited.pop();
}

fn check_type_with_fuel(
    types: &TypeSystem,
    lhs: TypeId,
    rhs: TypeId,
    visited: &mut Vec<(TypeId, TypeId)>,
    Ghost(fuel): Ghost<nat>,
) -> (result: Result<Check, CheckError>)
    requires
        check_type_fuel(types.types@, lhs, rhs, old(visited)@.to_set(), fuel) is Some,
        fuel < usize::MAX,
    ensures
        match result {
            Ok(c) => final(visited)@ == old(visited)@ && check_type_fuel(
                types.types@,
                lhs,
                rhs,
                old(visited)@.to_set(),
                fuel,
            )->Some_0.0 == Ok::<CheckV, CheckError>(c@),
            Err(e) => check_type_fuel(types.types@, lhs, rhs, old(visited)@.to_set(), fuel)
                == Some((Err::<CheckV, CheckError>(e), final(visited)@.to_set())),
        },
    decreases fuel,
{
    let ghost seen = visited@.to_set();
    let ghost start = visited@;
    let ghost f = (fuel - 1) as nat;
    if visiting(visited, lhs, rhs) {
        return Err(CheckError::Recursive(lhs, rhs));
    }
    visited.push((lhs, rhs));
    proof {
        assert(visited@.to_set() =~= seen.insert((lhs, rhs))) by {
            assert forall|p| visited@.to_set().contains(p) <==> seen.insert((lhs, rhs)).contains(p) by {
                if p != (lhs, rhs) {
                    if visited@.contains(p) {
                        let j = choose|j: int| 0 <= j < visited@.len() && visited@[j] == p;
                        assert(start[j] == p);
                    }
                    if start.contains(p) {
                        let j = choose|j: int| 0 <= j < start.len() && start[j] == p;
                        assert(visited@[j] == p);
                    }
                } else {
                    assert(visited@[visited@.len() - 1] == p);
                }
            }
        }
    }
    let l = &types.types[lhs.0];
    let r = &types.types[rhs.0];
    let check = if matches!(l, Type::Unknown) || matches!(r, Type::Unknown) || matches!(l, Type::Never) {
        Check::Trivial
    } else if matches!(r, Type::Never) {
        return Err(CheckError::Impossible(lhs, rhs));
    } else if is_atom(l) && is_atom(r) {
        match atom_check_of(l, r) {
            Some(c) => c,
            None => return Err(CheckError::Impossible(lhs, rhs)),
        }
    } else if let Type::Union(items) = r {
        let ghost inner = visited@;
        let ghost whole = match or_items_fuel(types.types@, lhs, items@, inner.to_set(), seq![], f) {
            None => None,
            Some((Ok(cs), _)) => Some((Ok(CheckV::Or(cs)), seen)),
            Some((Err(e), left)) => Some((Err(e), left)),
        };
        assert(check_type_fuel(types.types@, lhs, rhs, seen, fuel) == whole);
        let mut checks: Vec<Check> = Vec::new();
        let mut i: usize = 0;
        proof {
            assert(items@.skip(0) =~= items@);
            lemma_checks_view(checks@);
        }
        while i < items.len()
            invariant
                i <= items@.len(),
                visited@ == inner,
                f < fuel,
                fuel < usize::MAX,
                checks_view(checks@).len() == checks@.len(),
                or_items_fuel(types.types@, lhs, items@.skip(i as int), inner.to_set(), checks_view(checks@), f)
                    == or_items_fuel(types.types@, lhs, items@, inner.to_set(), seq![], f),
                or_items_fuel(types.types@, lhs, items@, inner.to_set(), seq![], f) is Some,
                seen == old(visited)@.to_set(),
                check_type_fuel(types.types@, lhs, rhs, seen, fuel) == whole,
                whole == match or_items_fuel(types.types@, lhs, items@, inner.to_set(), seq![], f) {
                    None => None,
                    Some((Ok(cs), _)) => Some((Ok(CheckV::Or(cs)), seen)),
                    Some((Err(e), left)) => Some((Err(e), left)),
                },
            decreases items@.len() - i,
        {
            let ghost rest = items@.skip(i as int);
            assert(rest[0] == items@[i as int]);
            assert(rest.drop_first() =~= items@.skip(i + 1));
            let c = match check_type_with_fuel(types, lhs, items[i], visited, Ghost(f)) {
                Ok(c) => c,
                Err(e) => return Err(e),
            };
            let ghost before = checks@;
            checks.push(c);
            proof {
                assert(checks@.drop_last() =~= before);
            }
            i += 1;
        }
        proof {
            assert(items@.skip(i as int) =~= Seq::<TypeId>::empty());
        }
        Check::Or(checks)
    } else if let Type::Union(items) = l {
        match check_with_fuel(types, lhs, items, rhs, visited, Ghost(f)) {
            Ok(c) => c,
            Err(e) => return Err(e),
        }
    } else if let (Type::Pair(lf, lr), Type::Pair(rf, rr)) = (l, r) {
        let first = match check_type_with_fuel(types, *lf, *rf, visited, Ghost(f)) {
            Ok(c) => c,
            Err(e) => return Err(e),
        };
        let rest = match check_type_with_fuel(types, *lr, *rr, visited, Ghost(f)) {
            Ok(c) => c,
            Err(e) => return Err(e),
        };
        Check::Pair(Box::new(first), Box::new(rest))
    } else {
        return Err(CheckError::Impossible(lhs, rhs));
    };
    forget_last(visited);
    proof {
        assert(visited@ =~= start);
    }
    Ok(check)
}

/// Whether `t` is an atom type.
fn is_atom(t: &Type) -> (result: bool)
    ensures
        result == is_atom_type(*t),
{
    matches!(t, Type::Bytes | Type::Bytes32 | Type::PublicKey | Type::Int | Type::Bool | Type::Nil)
}

/// The check that a value of the atom type `l` has the atom type `r`.
fn atom_check_of(l: &Type, r: &Type) -> (result: Option<Check>)
    ensures
        match result {
            Some(c) => atom_check(*l, *r) == Some(c@),
            None => atom_check(*l, *r) is None,
        },
{
    let l_bytes_or_int = matches!(l, Type::Bytes | Type::Int);
    if l_bytes_or_int && matches!(r, Type::Bool) {
        Some(Check::IsBool)
    } else if (l_bytes_or_int || matches!(l, Type::Bool)) && matches!(r, Type::Nil) {
        Some(Check::IsNil)
    } else if l_bytes_or_int && matches!(r, Type::PublicKey) {
        Some(Check::Length(48))
    } else if l_bytes_or_int && matches!(r, Type::Bytes32) {
        Some(Check::Length(32))
    } else if matches!(r, Type::Bytes | Type::Int) || (matches!(l, Type::Bytes32) && matches!(r, Type::Bytes32))
        || (matches!(l, Type::PublicKey) && matches!(r, Type::PublicKey)) || (matches!(l, Type::Bool)
        && matches!(r, Type::Bool)) || (matches!(l, Type::Nil) && matches!(r, Type::Nil)) || (matches!(
        l,
        Type::Nil
    ) && matches!(r, Type::Bool)) {
        Some(Check::Trivial)
    } else {
        None
    }
}

/// The check that a value of type `lhs` has type `rhs`: nothing where
/// every such value has it, a shape, length, bool or nil test where some
/// have it, a disjunction over the members of a union `rhs`, a union check
/// for a union `lhs`, and pair halves checked in turn. Fails when the pair
/// `(lhs, rhs)` is already being checked, and when no value of `lhs` can
/// have `rhs`.
pub fn check_type(
    types: &TypeSystem,
    lhs: TypeId,
    rhs: TypeId,
    visited: &mut Vec<(TypeId, TypeId)>,
) -> (result: Result<Check, CheckError>)
    requires
        type_check_defined(types.types@, lhs, rhs, old(visited)@.to_set()),
    ensures
        match result {
            Ok(c) => final(visited)@ == old(visited)@ && type_check(types.types@, lhs, rhs, old(visited)@.to_set()).0
                == Ok::<CheckV, CheckError>(c@),
            Err(e) => type_check(types.types@, lhs, rhs, old(visited)@.to_set()) == (
                Err::<CheckV, CheckError>(e),
                final(visited)@.to_set(),
            ),
        },
{
    let ghost fuel = choose|fuel: nat|
        fuel < usize::MAX && #[trigger] check_type_fuel(types.types@, lhs, rhs, old(visited)@.to_set(), fuel) is Some;
    check_type_with_fuel(types, lhs, rhs, visited, Ghost(fuel))
}


impl TypeSystem {
    /// The simplified check that a value of type `lhs` has type `rhs`.
    pub fn check(&self, lhs: TypeId, rhs: TypeId) -> (result: Result<Check, CheckError>)
        requires
            type_check_defined(self.types@, lhs, rhs, Set::empty()),
            type_check(self.types@, lhs, rhs, Set::empty()).0 matches Ok(c) ==> simplify_terminates(c),
        ensures
            match type_check(self.types@, lhs, rhs, Set::empty()).0 {
                Ok(c) => result == Ok::<Check, CheckError>(result->Ok_0) && result->Ok_0@ == simplified(c),
                Err(e) => result == Err::<Check, CheckError>(e),
            },
    {
        let mut visited: Vec<(TypeId, TypeId)> = Vec::new();
        assert(visited@.to_set() =~= Set::<(TypeId, TypeId)>::empty());
        match check_type(self, lhs, rhs, &mut visited) {
            Ok(c) => Ok(simplify_check(c)),
            Err(e) => Err(e),
        }
    }
}

} // verus!
