//! How one type compares with another: equal, assignable, castable or
//! unrelated, with generic parameters substituted and inferred on the way.
use std::collections::HashMap;
use vstd::prelude::*;

use crate::check::Comparison;
use crate::type_check::TypeId;

verus! {

broadcast use vstd::std_specs::vec::group_vec_axioms, vstd::std_specs::hash::group_hash_axioms;

/// A name for another type.
#[derive(Debug, Clone, Copy, PartialEq, Eq, Structural)]
pub struct Alias {
    pub type_id: TypeId,
}

/// A struct: its structure, and the struct it was derived from.
#[derive(Debug, Clone, Copy, PartialEq, Eq, Structural)]
pub struct Struct {
    pub original_type_id: TypeId,
    pub type_id: TypeId,
}

/// An enum: the union of its variants, and the enum it was derived from.
#[derive(Debug, Clone, Copy, PartialEq, Eq, Structural)]
pub struct Enum {
    pub original_type_id: TypeId,
    pub type_id: TypeId,
}

/// A variant of an enum.
#[derive(Debug, Clone, Copy, PartialEq, Eq, Structural)]
pub struct Variant {
    pub original_type_id: TypeId,
    pub original_enum_type_id: TypeId,
    pub type_id: TypeId,
}

/// A function: the type of its parameter list and of its result.
#[derive(Debug, Clone, Copy, PartialEq, Eq, Structural)]
pub struct Callable {
    pub parameters: TypeId,
    pub return_type: TypeId,
}

/// A type as comparison reads it.
#[derive(Debug, Clone)]
pub enum Type {
    /// A reference to another type.
    Ref(TypeId),
    /// A type not yet built.
    Lazy(TypeId),
    Unknown,
    Never,
    Any,
    Bytes,
    Bytes32,
    PublicKey,
    Int,
    Nil,
    True,
    False,
    Generic,
    /// One integer, held as its atom: the shortest big-endian two's
    /// complement bytes, empty for zero.
    Value(Vec<u8>),
    Pair(TypeId, TypeId),
    Union(Vec<TypeId>),
    Alias(Alias),
    Struct(Struct),
    Variant(Variant),
    Enum(Enum),
    Callable(Callable),
}

/// The types, each found by its identifier, and the type of any value.
#[derive(Debug, Clone)]
pub struct TypeSystem {
    pub types: Vec<Type>,
    pub any: TypeId,
}

/// What a comparison carries from call to call: the pairs being compared,
/// the generic types inferred so far, whether to infer more, and the
/// substitutions in force on either side, innermost last. Maps are keyed
/// by the number of a type identifier.
pub struct ComparisonContext {
    pub visited: Vec<(TypeId, TypeId)>,
    pub inferred: Vec<HashMap<usize, usize>>,
    pub infer_generics: bool,
    pub lhs_substitutions: Vec<HashMap<usize, usize>>,
    pub rhs_substitutions: Vec<HashMap<usize, usize>>,
}

/// What stays the same through a comparison.
pub struct Frame {
    pub lhs_substitutions: Seq<Map<usize, usize>>,
    pub rhs_substitutions: Seq<Map<usize, usize>>,
    pub infer_generics: bool,
}

pub open spec fn maps_view(maps: Seq<HashMap<usize, usize>>) -> Seq<Map<usize, usize>> {
    maps.map_values(|m: HashMap<usize, usize>| m@)
}

/// No substitutions, and nothing inferred.
pub open spec fn no_frame() -> Frame {
    Frame { lhs_substitutions: seq![], rhs_substitutions: seq![], infer_generics: false }
}

pub open spec fn frame_of(ctx: ComparisonContext) -> Frame {
    Frame {
        lhs_substitutions: maps_view(ctx.lhs_substitutions@),
        rhs_substitutions: maps_view(ctx.rhs_substitutions@),
        infer_generics: ctx.infer_generics,
    }
}

/// The value that the innermost map holding `key` gives it.
pub open spec fn find_last(maps: Seq<Map<usize, usize>>, key: usize) -> Option<usize>
    decreases maps.len(),
{
    if maps.len() == 0 {
        None
    } else if maps.last().contains_key(key) {
        Some(maps.last()[key])
    } else {
        find_last(maps.drop_last(), key)
    }
}

/// Where a reference (and, when `aliases`, an alias) leads.
pub open spec fn target(t: Type, id: TypeId) -> TypeId {
    match t {
        Type::Ref(next) => next,
        Type::Alias(a) => a.type_id,
        _ => id,
    }
}

/// The type that `id` stands for, references (and, when `aliases`, aliases)
/// followed within `steps` steps; none for an identifier out of range or a
/// chain longer than that.
pub open spec fn follow(types: Seq<Type>, id: TypeId, aliases: bool, steps: nat) -> Option<Type>
    decreases steps,
{
    if id.0 >= types.len() {
        None
    } else {
        let t = types[id.0 as int];
        if t is Ref || (aliases && t is Alias) {
            if steps == 0 {
                None
            } else {
                follow(types, target(t, id), aliases, (steps - 1) as nat)
            }
        } else {
            Some(t)
        }
    }
}

pub open spec fn rank(c: Comparison) -> nat {
    match c {
        Comparison::Equal => 0,
        Comparison::Assignable => 1,
        Comparison::Castable => 2,
        Comparison::NotEqual => 3,
    }
}

/// The more restrictive of two comparisons.
pub open spec fn worse(a: Comparison, b: Comparison) -> Comparison {
    if rank(a) >= rank(b) {
        a
    } else {
        b
    }
}

/// The less restrictive of two comparisons.
pub open spec fn better(a: Comparison, b: Comparison) -> Comparison {
    if rank(a) <= rank(b) {
        a
    } else {
        b
    }
}

/// Kinds that are the same type.
pub open spec fn same_kind(l: Type, r: Type) -> bool {
    ||| l is Unknown && r is Unknown
    ||| l is Never && r is Never
    ||| l is Any && r is Any
    ||| l is Bytes && r is Bytes
    ||| l is Bytes32 && r is Bytes32
    ||| l is PublicKey && r is PublicKey
    ||| l is Int && r is Int
    ||| l is Nil && r is Nil
    ||| l is True && r is True
    ||| l is False && r is False
}

/// Kinds where the left is assignable whatever the other is.
pub open spec fn always_assignable(l: Type, r: Type) -> bool {
    r is Any || r is Unknown || l is Unknown || l is Never
}

/// Whether `t` is an atom kind with no further structure.
pub open spec fn is_plain_atom(t: Type) -> bool {
    t is Bytes || t is Bytes32 || t is PublicKey || t is Int || t is Nil || t is True || t is False
}

/// The comparison of two kinds that needs no other type: none where the
/// kinds need one.
pub open spec fn leaf_comparison(l: Type, r: Type) -> Option<Comparison> {
    match (l, r) {
        (Type::Value(_), Type::Int) | (Type::Bytes32, Type::Bytes) | (Type::Nil, Type::Bytes) => Some(
            Comparison::Assignable,
        ),
        (
            Type::Bytes | Type::Bytes32 | Type::PublicKey | Type::Nil | Type::True | Type::False,
            Type::Int,
        )
        | (Type::PublicKey | Type::Int | Type::True | Type::False | Type::Value(_), Type::Bytes)
        | (Type::False, Type::Nil)
        | (Type::Nil, Type::False) => Some(Comparison::Castable),
        (
            Type::Any,
            Type::Bytes
            | Type::Bytes32
            | Type::PublicKey
            | Type::Int
            | Type::Nil
            | Type::True
            | Type::False
            | Type::Value(_)
            | Type::Pair(..),
        )
        | (
            Type::Bytes | Type::Int,
            Type::Bytes32 | Type::PublicKey | Type::Nil | Type::True | Type::False | Type::Value(_),
        )
        | (
            Type::Any
            | Type::Bytes
            | Type::Bytes32
            | Type::PublicKey
            | Type::Int
            | Type::Nil
            | Type::True
            | Type::False
            | Type::Value(_)
            | Type::Pair(..)
            | Type::Callable(_),
            Type::Never,
        )
        | (Type::Bytes32 | Type::PublicKey, Type::Value(_))
        | (
            Type::Pair(..),
            Type::Bytes
            | Type::Bytes32
            | Type::PublicKey
            | Type::Int
            | Type::Nil
            | Type::True
            | Type::False
            | Type::Value(_),
        )
        | (
            Type::Bytes
            | Type::Bytes32
            | Type::PublicKey
            | Type::Int
            | Type::Nil
            | Type::True
            | Type::False
            | Type::Value(_),
            Type::Pair(..),
        )
        | (Type::Bytes32, Type::PublicKey | Type::Nil | Type::True | Type::False)
        | (Type::PublicKey, Type::Bytes32 | Type::Nil | Type::True | Type::False)
        | (Type::Nil, Type::Bytes32 | Type::PublicKey | Type::True)
        | (Type::True, Type::False | Type::Nil)
        | (Type::False, Type::True)
        | (Type::True | Type::False, Type::Bytes32 | Type::PublicKey)
        | (
            Type::Any
            | Type::Bytes
            | Type::Bytes32
            | Type::PublicKey
            | Type::Int
            | Type::Nil
            | Type::True
            | Type::False
            | Type::Value(_)
            | Type::Pair(..),
            Type::Callable(_),
        ) => Some(Comparison::NotEqual),
        (Type::Value(v), Type::Bytes32) => Some(
            if v@.len() == 32 {
                Comparison::Castable
            } else {
                Comparison::NotEqual
            },
        ),
        (Type::Value(v), Type::PublicKey) => Some(
            if v@.len() == 48 {
                Comparison::Castable
            } else {
                Comparison::NotEqual
            },
        ),
        (Type::Nil | Type::False, Type::Value(v)) | (Type::Value(v), Type::Nil | Type::False) => Some(
            if v@.len() == 0 {
                Comparison::Castable
            } else {
                Comparison::NotEqual
            },
        ),
        (Type::True, Type::Value(v)) | (Type::Value(v), Type::True) => Some(
            if v@ == seq![1u8] {
                Comparison::Castable
            } else {
                Comparison::NotEqual
            },
        ),
        (Type::Value(a), Type::Value(b)) => Some(
            if a@ == b@ {
                Comparison::Equal
            } else {
                Comparison::NotEqual
            },
        ),
        _ => None,
    }
}

/// `inferred` with `key` inferred as `value` in its innermost map.
pub open spec fn infer(inferred: Seq<Map<usize, usize>>, key: usize, value: usize) -> Seq<Map<usize, usize>> {
    inferred.drop_last().push(inferred.last().insert(key, value))
}

/// At least `floor`.
pub open spec fn at_least(result: Option<(Comparison, Seq<Map<usize, usize>>)>, floor: Comparison) -> Option<
    (Comparison, Seq<Map<usize, usize>>),
> {
    match result {
        Some((c, inferred)) => Some((worse(c, floor), inferred)),
        None => None,
    }
}

/// The comparison of `lhs` with `rhs` within `fuel` steps, with the
/// inferred maps after it; none when the steps run out or the comparison
/// meets an identifier out of range, a reference cycle, a type not yet
/// built, or an inference with no map to hold it.
pub open spec fn compare_fuel(
    types: Seq<Type>,
    any: TypeId,
    lhs: TypeId,
    rhs: TypeId,
    visited: Seq<(TypeId, TypeId)>,
    inferred: Seq<Map<usize, usize>>,
    frame: Frame,
    fuel: nat,
) -> Option<(Comparison, Seq<Map<usize, usize>>)>
    decreases fuel, 0nat, 0nat,
{
    if fuel == 0 {
        None
    } else if visited.contains((lhs, rhs)) {
        Some((Comparison::Assignable, inferred))
    } else {
        match (follow(types, lhs, false, types.len()), follow(types, rhs, false, types.len())) {
            (Some(l), Some(r)) => compare_kinds(
                types,
                any,
                lhs,
                rhs,
                l,
                r,
                visited.push((lhs, rhs)),
                inferred,
                frame,
                (fuel - 1) as nat,
            ),
            _ => None,
        }
    }
}

/// The comparison of `lhs`, of kind `l`, with `rhs`, of kind `r`.
pub open spec fn compare_kinds(
    types: Seq<Type>,
    any: TypeId,
    lhs: TypeId,
    rhs: TypeId,
    l: Type,
    r: Type,
    seen: Seq<(TypeId, TypeId)>,
    inferred: Seq<Map<usize, usize>>,
    frame: Frame,
    fuel: nat,
) -> Option<(Comparison, Seq<Map<usize, usize>>)>
    decreases fuel, 3nat, 0nat,
{
    let found_lhs = find_last(frame.lhs_substitutions, lhs.0);
    let found_rhs = find_last(frame.rhs_substitutions, rhs.0);
    if l is Lazy || r is Lazy {
        None
    } else if same_kind(l, r) {
        Some((Comparison::Equal, inferred))
    } else if always_assignable(l, r) {
        Some((Comparison::Assignable, inferred))
    } else if l is Generic && found_lhs is Some {
        compare_fuel(types, any, TypeId(found_lhs.unwrap()), rhs, seen, inferred, frame, fuel)
    } else if r is Generic && found_rhs is Some {
        compare_fuel(types, any, lhs, TypeId(found_rhs.unwrap()), seen, inferred, frame, fuel)
    } else if r is Generic {
        match find_last(inferred, rhs.0) {
            Some(t) => compare_fuel(types, any, lhs, TypeId(t), seen, inferred, frame, fuel),
            None => if lhs == rhs {
                Some((Comparison::Equal, inferred))
            } else if frame.infer_generics {
                if inferred.len() == 0 {
                    None
                } else {
                    Some((Comparison::Assignable, infer(inferred, rhs.0, lhs.0)))
                }
            } else {
                Some((Comparison::NotEqual, inferred))
            },
        }
    } else if l is Generic {
        match find_last(inferred, lhs.0) {
            Some(t) => compare_fuel(types, any, TypeId(t), rhs, seen, inferred, frame, fuel),
            None => if lhs == rhs {
                Some((Comparison::Equal, inferred))
            } else {
                Some((Comparison::NotEqual, inferred))
            },
        }
    } else if leaf_comparison(l, r) is Some {
        Some((leaf_comparison(l, r).unwrap(), inferred))
    } else {
        compare_structure(types, any, lhs, rhs, l, r, seen, inferred, frame, fuel)
    }
}

/// The comparison of kinds that hold other types: pairs halves in turn,
/// union members, aliases resolved, structs, enums and variants at best
/// castable unless they come from the same declaration, and functions by
/// parameters and result.
pub open spec fn compare_structure(
    types: Seq<Type>,
    any: TypeId,
    lhs: TypeId,
    rhs: TypeId,
    l: Type,
    r: Type,
    seen: Seq<(TypeId, TypeId)>,
    inferred: Seq<Map<usize, usize>>,
    frame: Frame,
    fuel: nat,
) -> Option<(Comparison, Seq<Map<usize, usize>>)>
    decreases fuel, 2nat, 0nat,
{
    {
        match (l, r) {
            (Type::Pair(lf, lr), Type::Pair(rf, rr)) => match compare_fuel(
                types,
                any,
                lf,
                rf,
                seen,
                inferred,
                frame,
                fuel,
            ) {
                Some((first, after)) => match compare_fuel(types, any, lr, rr, seen, after, frame, fuel) {
                    Some((rest, last)) => Some((worse(first, rest), last)),
                    None => None,
                },
                None => None,
            },
            (Type::Union(items), _) => union_lhs_fold(
                types,
                any,
                items@,
                rhs,
                seen,
                inferred,
                frame,
                fuel,
                Comparison::Assignable,
            ),
            (_, Type::Union(items)) => at_least(
                union_rhs_fold(types, any, lhs, items@, seen, inferred, frame, fuel, Comparison::NotEqual),
                Comparison::Assignable,
            ),
            (Type::Alias(a), _) => compare_fuel(types, any, a.type_id, rhs, seen, inferred, frame, fuel),
            (_, Type::Alias(a)) => compare_fuel(types, any, lhs, a.type_id, seen, inferred, frame, fuel),
            (Type::Struct(a), Type::Struct(b)) => if a.original_type_id == b.original_type_id {
                compare_fuel(types, any, a.type_id, b.type_id, seen, inferred, frame, fuel)
            } else {
                at_least(
                    compare_fuel(types, any, a.type_id, rhs, seen, inferred, frame, fuel),
                    Comparison::Castable,
                )
            },
            (Type::Struct(a), _) => at_least(
                compare_fuel(types, any, a.type_id, rhs, seen, inferred, frame, fuel),
                Comparison::Castable,
            ),
            (_, Type::Struct(b)) => at_least(
                compare_fuel(types, any, lhs, b.type_id, seen, inferred, frame, fuel),
                Comparison::Castable,
            ),
            (Type::Variant(v), Type::Enum(e)) => at_least(
                compare_fuel(types, any, lhs, e.type_id, seen, inferred, frame, fuel),
                if v.original_enum_type_id == e.original_type_id {
                    Comparison::Assignable
                } else {
                    Comparison::Castable
                },
            ),
            (Type::Enum(e), Type::Variant(v)) => at_least(
                compare_fuel(types, any, e.type_id, rhs, seen, inferred, frame, fuel),
                if v.original_enum_type_id == e.original_type_id {
                    Comparison::Assignable
                } else {
                    Comparison::Castable
                },
            ),
            (Type::Enum(a), Type::Enum(b)) => if a.original_type_id == b.original_type_id {
                compare_fuel(types, any, a.type_id, b.type_id, seen, inferred, frame, fuel)
            } else {
                at_least(
                    compare_fuel(types, any, a.type_id, rhs, seen, inferred, frame, fuel),
                    Comparison::Castable,
                )
            },
            (Type::Enum(a), _) => at_least(
                compare_fuel(types, any, a.type_id, rhs, seen, inferred, frame, fuel),
                Comparison::Castable,
            ),
            (_, Type::Enum(b)) => at_least(
                compare_fuel(types, any, lhs, b.type_id, seen, inferred, frame, fuel),
                Comparison::Castable,
            ),
            (Type::Variant(a), Type::Variant(b)) => if a.original_type_id == b.original_type_id {
                compare_fuel(types, any, a.type_id, b.type_id, seen, inferred, frame, fuel)
            } else {
                at_least(
                    compare_fuel(types, any, a.type_id, rhs, seen, inferred, frame, fuel),
                    Comparison::Castable,
                )
            },
            (Type::Variant(a), _) => at_least(
                compare_fuel(types, any, a.type_id, rhs, seen, inferred, frame, fuel),
                Comparison::Castable,
            ),
            (_, Type::Variant(b)) => at_least(
                compare_fuel(types, any, lhs, b.type_id, seen, inferred, frame, fuel),
                Comparison::Castable,
            ),
            (Type::Callable(a), Type::Callable(b)) => match compare_fuel(
                types,
                any,
                a.parameters,
                b.parameters,
                seen,
                inferred,
                frame,
                fuel,
            ) {
                Some((params, after)) => match compare_fuel(
                    types,
                    any,
                    a.return_type,
                    b.return_type,
                    seen,
                    after,
                    frame,
                    fuel,
                ) {
                    Some((ret, last)) => Some((worse(params, ret), last)),
                    None => None,
                },
                None => None,
            },
            (Type::Callable(_), _) => compare_fuel(types, any, lhs, any, seen, inferred, frame, fuel),
            _ => None,
        }
    }
}

/// Each member of a union `lhs` compared with `rhs` in turn, the most
/// restrictive comparison kept, from `acc`.
pub open spec fn union_lhs_fold(
    types: Seq<Type>,
    any: TypeId,
    items: Seq<TypeId>,
    rhs: TypeId,
    seen: Seq<(TypeId, TypeId)>,
    inferred: Seq<Map<usize, usize>>,
    frame: Frame,
    fuel: nat,
    acc: Comparison,
) -> Option<(Comparison, Seq<Map<usize, usize>>)>
    decreases fuel, 1nat, items.len(),
{
    if items.len() == 0 {
        Some((acc, inferred))
    } else {
        match compare_fuel(types, any, items[0], rhs, seen, inferred, frame, fuel) {
            Some((c, after)) => union_lhs_fold(
                types,
                any,
                items.drop_first(),
                rhs,
                seen,
                after,
                frame,
                fuel,
                worse(acc, c),
            ),
            None => None,
        }
    }
}

/// `lhs` compared with each member of a union `rhs` in turn, members that
/// resolve to `Never` skipped, the least restrictive comparison kept, from
/// `acc`.
pub open spec fn union_rhs_fold(
    types: Seq<Type>,
    any: TypeId,
    lhs: TypeId,
    items: Seq<TypeId>,
    seen: Seq<(TypeId, TypeId)>,
    inferred: Seq<Map<usize, usize>>,
    frame: Frame,
    fuel: nat,
    acc: Comparison,
) -> Option<(Comparison, Seq<Map<usize, usize>>)>
    decreases fuel, 1nat, items.len(),
{
    if items.len() == 0 {
        Some((acc, inferred))
    } else {
        match follow(types, items[0], true, types.len()) {
            None => None,
            Some(t) => if t is Never {
                union_rhs_fold(types, any, lhs, items.drop_first(), seen, inferred, frame, fuel, acc)
            } else {
                match compare_fuel(types, any, lhs, items[0], seen, inferred, frame, fuel) {
                    Some((c, after)) => union_rhs_fold(
                        types,
                        any,
                        lhs,
                        items.drop_first(),
                        seen,
                        after,
                        frame,
                        fuel,
                        better(acc, c),
                    ),
                    None => None,
                }
            },
        }
    }
}

/// Whether comparing `lhs` with `rhs`, with the pairs `visited` being
/// compared and the maps `inferred`, ends without meeting an identifier out
/// of range, a reference cycle, a type not yet built, or an inference with
/// no map to hold it.
pub open spec fn defined_from(
    db: TypeSystem,
    lhs: TypeId,
    rhs: TypeId,
    visited: Seq<(TypeId, TypeId)>,
    inferred: Seq<Map<usize, usize>>,
    frame: Frame,
) -> bool {
    exists|fuel: nat| #[trigger] compare_fuel(db.types@, db.any, lhs, rhs, visited, inferred, frame, fuel) is Some
}

/// The comparison of `lhs` with `rhs`, with the pairs `visited` being
/// compared and the maps `inferred`, and the inferred maps after it.
pub open spec fn compared_from(
    db: TypeSystem,
    lhs: TypeId,
    rhs: TypeId,
    visited: Seq<(TypeId, TypeId)>,
    inferred: Seq<Map<usize, usize>>,
    frame: Frame,
) -> (Comparison, Seq<Map<usize, usize>>) {
    compare_fuel(
        db.types@,
        db.any,
        lhs,
        rhs,
        visited,
        inferred,
        frame,
        choose|fuel: nat| #[trigger] compare_fuel(db.types@, db.any, lhs, rhs, visited, inferred, frame, fuel) is Some,
    )->Some_0
}

/// Whether comparing `lhs` with `rhs` from `ctx` ends without meeting an
/// identifier out of range, a reference cycle, a type not yet built, or an
/// inference with no map to hold it.
pub open spec fn comparison_defined(db: TypeSystem, lhs: TypeId, rhs: TypeId, ctx: ComparisonContext) -> bool {
    defined_from(db, lhs, rhs, ctx.visited@, maps_view(ctx.inferred@), frame_of(ctx))
}

/// The comparison of `lhs` with `rhs` from `ctx`, with the inferred maps
/// after it.
pub open spec fn comparison(db: TypeSystem, lhs: TypeId, rhs: TypeId, ctx: ComparisonContext) -> (
    Comparison,
    Seq<Map<usize, usize>>,
) {
    compared_from(db, lhs, rhs, ctx.visited@, maps_view(ctx.inferred@), frame_of(ctx))
}

fn has_pair(visited: &Vec<(TypeId, TypeId)>, pair: (TypeId, TypeId)) -> (result: bool)
    ensures
        result == visited@.contains(pair),
{
    let mut i: usize = 0;
    while i < visited.len()
        invariant
            0 <= i <= visited.len(),
            forall|j: int| 0 <= j < i ==> visited@[j] != pair,
        decreases visited.len() - i,
    {
        if visited[i].0 == pair.0 && visited[i].1 == pair.1 {
            assert(visited@[i as int] == pair);
            return true;
        }
        i = i + 1;
    }
    false
}

fn find_last_in(maps: &Vec<HashMap<usize, usize>>, key: usize) -> (result: Option<usize>)
    ensures
        result == find_last(maps_view(maps@), key),
{
    let ghost all = maps_view(maps@);
    let mut i: usize = maps.len();
    assert(all.take(i as int) =~= all);
    while i > 0
        invariant
            i <= maps.len(),
            all == maps_view(maps@),
            find_last(all, key) == find_last(all.take(i as int), key),
        decreases i,
    {
        let ghost front = all.take(i as int);
        assert(front.drop_last() =~= all.take(i - 1));
        assert(front.last() == maps@[i - 1]@);
        if let Some(v) = maps[i - 1].get(&key) {
            return Some(*v);
        }
        i = i - 1;
    }
    None
}

/// The index of the type that `id` stands for, as `follow` finds it.
fn follow_index(db: &TypeSystem, id: TypeId, aliases: bool) -> (result: Option<usize>)
    ensures
        match result {
            Some(i) => i < db.types@.len() && follow(db.types@, id, aliases, db.types@.len())
                == Some(db.types@[i as int]),
            None => follow(db.types@, id, aliases, db.types@.len()) is None,
        },
{
    let mut cur = id;
    let mut steps: usize = db.types.len();
    while true
        invariant
            steps <= db.types@.len(),
            follow(db.types@, id, aliases, db.types@.len()) == follow(db.types@, cur, aliases, steps as nat),
        decreases steps,
    {
        if cur.0 >= db.types.len() {
            return None;
        }
        match &db.types[cur.0] {
            Type::Ref(next) => {
                if steps == 0 {
                    return None;
                }
                cur = *next;
                steps = steps - 1;
            },
            Type::Alias(a) => {
                if !aliases {
                    return Some(cur.0);
                }
                if steps == 0 {
                    return None;
                }
                cur = a.type_id;
                steps = steps - 1;
            },
            _ => {
                return Some(cur.0);
            },
        }
    }
    None
}

fn worse_of(a: Comparison, b: Comparison) -> (result: Comparison)
    ensures
        result == worse(a, b),
{
    let ra: u8 = match a {
        Comparison::Equal => 0,
        Comparison::Assignable => 1,
        Comparison::Castable => 2,
        Comparison::NotEqual => 3,
    };
    let rb: u8 = match b {
        Comparison::Equal => 0,
        Comparison::Assignable => 1,
        Comparison::Castable => 2,
        Comparison::NotEqual => 3,
    };
    if ra >= rb {
        a
    } else {
        b
    }
}

fn better_of(a: Comparison, b: Comparison) -> (result: Comparison)
    ensures
        result == better(a, b),
{
    let ra: u8 = match a {
        Comparison::Equal => 0,
        Comparison::Assignable => 1,
        Comparison::Castable => 2,
        Comparison::NotEqual => 3,
    };
    let rb: u8 = match b {
        Comparison::Equal => 0,
        Comparison::Assignable => 1,
        Comparison::Castable => 2,
        Comparison::NotEqual => 3,
    };
    if ra <= rb {
        a
    } else {
        b
    }
}

fn same_bytes(a: &Vec<u8>, b: &Vec<u8>) -> (result: bool)
    ensures
        result == (a@ == b@),
{
    if a.len() != b.len() {
        return false;
    }
    let mut i: usize = 0;
    while i < a.len()
        invariant
            0 <= i <= a.len(),
            a.len() == b.len(),
            forall|j: int| 0 <= j < i ==> a@[j] == b@[j],
        decreases a.len() - i,
    {
        if a[i] != b[i] {
            return false;
        }
        i = i + 1;
    }
    assert(a@ =~= b@);
    true
}

fn is_one(v: &Vec<u8>) -> (result: bool)
    ensures
        result == (v@ == seq![1u8]),
{
    if v.len() == 1 && v[0] == 1 {
        assert(v@ =~= seq![1u8]);
        true
    } else {
        false
    }
}

fn same_kind_of(l: &Type, r: &Type) -> (result: bool)
    ensures
        result == same_kind(*l, *r),
{
    match (l, r) {
        (Type::Unknown, Type::Unknown)
        | (Type::Never, Type::Never)
        | (Type::Any, Type::Any)
        | (Type::Bytes, Type::Bytes)
        | (Type::Bytes32, Type::Bytes32)
        | (Type::PublicKey, Type::PublicKey)
        | (Type::Int, Type::Int)
        | (Type::Nil, Type::Nil)
        | (Type::True, Type::True)
        | (Type::False, Type::False) => true,
        _ => false,
    }
}

fn always_assignable_of(l: &Type, r: &Type) -> (result: bool)
    ensures
        result == always_assignable(*l, *r),
{
    match (l, r) {
        (_, Type::Any | Type::Unknown) | (Type::Unknown | Type::Never, _) => true,
        _ => false,
    }
}

fn leaf_comparison_of(l: &Type, r: &Type) -> (result: Option<Comparison>)
    ensures
        result == leaf_comparison(*l, *r),
{
    match (l, r) {
        (Type::Value(_), Type::Int) | (Type::Bytes32, Type::Bytes) | (Type::Nil, Type::Bytes) => Some(
            Comparison::Assignable,
        ),
        (
            Type::Bytes | Type::Bytes32 | Type::PublicKey | Type::Nil | Type::True | Type::False,
            Type::Int,
        )
        | (Type::PublicKey | Type::Int | Type::True | Type::False | Type::Value(_), Type::Bytes)
        | (Type::False, Type::Nil)
        | (Type::Nil, Type::False) => Some(Comparison::Castable),
        (
            Type::Any,
            Type::Bytes
            | Type::Bytes32
            | Type::PublicKey
            | Type::Int
            | Type::Nil
            | Type::True
            | Type::False
            | Type::Value(_)
            | Type::Pair(..),
        )
        | (
            Type::Bytes | Type::Int,
            Type::Bytes32 | Type::PublicKey | Type::Nil | Type::True | Type::False | Type::Value(_),
        )
        | (
            Type::Any
            | Type::Bytes
            | Type::Bytes32
            | Type::PublicKey
            | Type::Int
            | Type::Nil
            | Type::True
            | Type::False
            | Type::Value(_)
            | Type::Pair(..)
            | Type::Callable(_),
            Type::Never,
        )
        | (Type::Bytes32 | Type::PublicKey, Type::Value(_))
        | (
            Type::Pair(..),
            Type::Bytes
            | Type::Bytes32
            | Type::PublicKey
            | Type::Int
            | Type::Nil
            | Type::True
            | Type::False
            | Type::Value(_),
        )
        | (
            Type::Bytes
            | Type::Bytes32
            | Type::PublicKey
            | Type::Int
            | Type::Nil
            | Type::True
            | Type::False
            | Type::Value(_),
            Type::Pair(..),
        )
        | (Type::Bytes32, Type::PublicKey | Type::Nil | Type::True | Type::False)
        | (Type::PublicKey, Type::Bytes32 | Type::Nil | Type::True | Type::False)
        | (Type::Nil, Type::Bytes32 | Type::PublicKey | Type::True)
        | (Type::True, Type::False | Type::Nil)
        | (Type::False, Type::True)
        | (Type::True | Type::False, Type::Bytes32 | Type::PublicKey)
        | (
            Type::Any
            | Type::Bytes
            | Type::Bytes32
            | Type::PublicKey
            | Type::Int
            | Type::Nil
            | Type::True
            | Type::False
            | Type::Value(_)
            | Type::Pair(..),
            Type::Callable(_),
        ) => Some(Comparison::NotEqual),
        (Type::Value(v), Type::Bytes32) => Some(
            if v.len() == 32 {
                Comparison::Castable
            } else {
                Comparison::NotEqual
            },
        ),
        (Type::Value(v), Type::PublicKey) => Some(
            if v.len() == 48 {
                Comparison::Castable
            } else {
                Comparison::NotEqual
            },
        ),
        (Type::Nil | Type::False, Type::Value(v)) | (Type::Value(v), Type::Nil | Type::False) => Some(
            if v.len() == 0 {
                Comparison::Castable
            } else {
                Comparison::NotEqual
            },
        ),
        (Type::True, Type::Value(v)) | (Type::Value(v), Type::True) => Some(
            if is_one(v) {
                Comparison::Castable
            } else {
                Comparison::NotEqual
            },
        ),
        (Type::Value(a), Type::Value(b)) => Some(
            if same_bytes(a, b) {
                Comparison::Equal
            } else {
                Comparison::NotEqual
            },
        ),
        _ => None,
    }
}


/// Whether `ctx` keeps the pairs, substitutions and inference flag of
/// `start`, and, where nothing is inferred, its inferred maps.
pub open spec fn keeps(start: ComparisonContext, ctx: ComparisonContext) -> bool {
    &&& ctx.visited@ == start.visited@
    &&& ctx.lhs_substitutions@ == start.lhs_substitutions@
    &&& ctx.rhs_substitutions@ == start.rhs_substitutions@
    &&& ctx.infer_generics == start.infer_generics
    &&& !start.infer_generics ==> ctx.inferred@ == start.inferred@
}

fn compare_with_fuel(
    db: &TypeSystem,
    lhs: TypeId,
    rhs: TypeId,
    ctx: &mut ComparisonContext,
    Ghost(fuel): Ghost<nat>,
) -> (result: Comparison)
    requires
        compare_fuel(
            db.types@,
            db.any,
            lhs,
            rhs,
            old(ctx).visited@,
            maps_view(old(ctx).inferred@),
            frame_of(*old(ctx)),
            fuel,
        ) is Some,
    ensures
        compare_fuel(
            db.types@,
            db.any,
            lhs,
            rhs,
            old(ctx).visited@,
            maps_view(old(ctx).inferred@),
            frame_of(*old(ctx)),
            fuel,
        ) == Some((result, maps_view(final(ctx).inferred@))),
        keeps(*old(ctx), *final(ctx)),
    decreases fuel, 0nat,
{
    let ghost f = (fuel - 1) as nat;
    if has_pair(&ctx.visited, (lhs, rhs)) {
        return Comparison::Assignable;
    }
    let li = follow_index(db, lhs, false);
    let ri = follow_index(db, rhs, false);
    if li.is_none() || ri.is_none() {
        return Comparison::NotEqual;
    }
    let li = li.unwrap();
    let ri = ri.unwrap();
    let ghost start = *ctx;
    ctx.visited.push((lhs, rhs));
    let found_lhs = find_last_in(&ctx.lhs_substitutions, lhs.0);
    let found_rhs = find_last_in(&ctx.rhs_substitutions, rhs.0);
    let l = &db.types[li];
    let r = &db.types[ri];
    let l_generic = matches!(l, Type::Generic);
    let r_generic = matches!(r, Type::Generic);
    let result = if matches!(l, Type::Lazy(_)) || matches!(r, Type::Lazy(_)) {
        Comparison::NotEqual
    } else if same_kind_of(l, r) {
        Comparison::Equal
    } else if always_assignable_of(l, r) {
        Comparison::Assignable
    } else if l_generic && found_lhs.is_some() {
        compare_with_fuel(db, TypeId(found_lhs.unwrap()), rhs, ctx, Ghost(f))
    } else if r_generic && found_rhs.is_some() {
        compare_with_fuel(db, lhs, TypeId(found_rhs.unwrap()), ctx, Ghost(f))
    } else if r_generic {
        match find_last_in(&ctx.inferred, rhs.0) {
            Some(t) => compare_with_fuel(db, lhs, TypeId(t), ctx, Ghost(f)),
            None => if lhs == rhs {
                Comparison::Equal
            } else if ctx.infer_generics {
                let ghost before = maps_view(ctx.inferred@);
                let mut innermost = ctx.inferred.pop().unwrap();
                innermost.insert(rhs.0, lhs.0);
                ctx.inferred.push(innermost);
                assert(maps_view(ctx.inferred@) =~= infer(before, rhs.0, lhs.0));
                Comparison::Assignable
            } else {
                Comparison::NotEqual
            },
        }
    } else if l_generic {
        match find_last_in(&ctx.inferred, lhs.0) {
            Some(t) => compare_with_fuel(db, TypeId(t), rhs, ctx, Ghost(f)),
            None => if lhs == rhs {
                Comparison::Equal
            } else {
                Comparison::NotEqual
            },
        }
    } else {
        match leaf_comparison_of(l, r) {
            Some(c) => c,
            None => compare_structure_with_fuel(db, lhs, rhs, l, r, ctx, Ghost(f)),
        }
    };
    ctx.visited.pop();
    assert(ctx.visited@ =~= start.visited@);
    result
}

fn compare_structure_with_fuel(
    db: &TypeSystem,
    lhs: TypeId,
    rhs: TypeId,
    l: &Type,
    r: &Type,
    ctx: &mut ComparisonContext,
    Ghost(fuel): Ghost<nat>,
) -> (result: Comparison)
    requires
        compare_structure(
            db.types@,
            db.any,
            lhs,
            rhs,
            *l,
            *r,
            old(ctx).visited@,
            maps_view(old(ctx).inferred@),
            frame_of(*old(ctx)),
            fuel,
        ) is Some,
    ensures
        compare_structure(
            db.types@,
            db.any,
            lhs,
            rhs,
            *l,
            *r,
            old(ctx).visited@,
            maps_view(old(ctx).inferred@),
            frame_of(*old(ctx)),
            fuel,
        ) == Some((result, maps_view(final(ctx).inferred@))),
        keeps(*old(ctx), *final(ctx)),
    decreases fuel, 1nat,
{
    let ghost start = *ctx;
    let ghost types = db.types@;
    let ghost seen = ctx.visited@;
    let ghost frame = frame_of(*ctx);
    match (l, r) {
        (Type::Pair(lf, lr), Type::Pair(rf, rr)) => {
            let first = compare_with_fuel(db, *lf, *rf, ctx, Ghost(fuel));
            let rest = compare_with_fuel(db, *lr, *rr, ctx, Ghost(fuel));
            worse_of(first, rest)
        },
        (Type::Union(items), _) => {
            let ghost inferred = maps_view(ctx.inferred@);
            let mut result = Comparison::Assignable;
            let mut i: usize = 0;
            assert(items@.skip(0) =~= items@);
            while i < items.len()
                invariant
                    0 <= i <= items.len(),
                    types == db.types@,
                    keeps(start, *ctx),
                    frame == frame_of(start),
                    seen == start.visited@,
                    union_lhs_fold(types, db.any, items@, rhs, seen, inferred, frame, fuel, Comparison::Assignable)
                        is Some,
                    union_lhs_fold(types, db.any, items@, rhs, seen, inferred, frame, fuel, Comparison::Assignable)
                        == union_lhs_fold(
                        types,
                        db.any,
                        items@.skip(i as int),
                        rhs,
                        seen,
                        maps_view(ctx.inferred@),
                        frame,
                        fuel,
                        result,
                    ),
                decreases items.len() - i,
            {
                assert(items@.skip(i as int).drop_first() =~= items@.skip(i + 1));
                assert(items@.skip(i as int)[0] == items@[i as int]);
                assert(frame_of(*ctx) == frame);
                let c = compare_with_fuel(db, items[i], rhs, ctx, Ghost(fuel));
                result = worse_of(result, c);
                i = i + 1;
            }
            result
        },
        (_, Type::Union(items)) => {
            let ghost inferred = maps_view(ctx.inferred@);
            let mut result = Comparison::NotEqual;
            let mut i: usize = 0;
            assert(items@.skip(0) =~= items@);
            while i < items.len()
                invariant
                    0 <= i <= items.len(),
                    types == db.types@,
                    keeps(start, *ctx),
                    frame == frame_of(start),
                    seen == start.visited@,
                    union_rhs_fold(types, db.any, lhs, items@, seen, inferred, frame, fuel, Comparison::NotEqual)
                        is Some,
                    union_rhs_fold(types, db.any, lhs, items@, seen, inferred, frame, fuel, Comparison::NotEqual)
                        == union_rhs_fold(
                        types,
                        db.any,
                        lhs,
                        items@.skip(i as int),
                        seen,
                        maps_view(ctx.inferred@),
                        frame,
                        fuel,
                        result,
                    ),
                decreases items.len() - i,
            {
                assert(items@.skip(i as int).drop_first() =~= items@.skip(i + 1));
                assert(items@.skip(i as int)[0] == items@[i as int]);
                assert(frame_of(*ctx) == frame);
                let item = items[i];
                let resolved = follow_index(db, item, true);
                if resolved.is_none() {
                    return Comparison::NotEqual;
                }
                if !matches!(&db.types[resolved.unwrap()], Type::Never) {
                    let c = compare_with_fuel(db, lhs, item, ctx, Ghost(fuel));
                    result = better_of(result, c);
                }
                i = i + 1;
            }
            worse_of(result, Comparison::Assignable)
        },
        (Type::Alias(a), _) => compare_with_fuel(db, a.type_id, rhs, ctx, Ghost(fuel)),
        (_, Type::Alias(a)) => compare_with_fuel(db, lhs, a.type_id, ctx, Ghost(fuel)),
        (Type::Struct(a), Type::Struct(b)) => if a.original_type_id == b.original_type_id {
            compare_with_fuel(db, a.type_id, b.type_id, ctx, Ghost(fuel))
        } else {
            let c = compare_with_fuel(db, a.type_id, rhs, ctx, Ghost(fuel));
            worse_of(c, Comparison::Castable)
        },
        (Type::Struct(a), _) => {
            let c = compare_with_fuel(db, a.type_id, rhs, ctx, Ghost(fuel));
            worse_of(c, Comparison::Castable)
        },
        (_, Type::Struct(b)) => {
            let c = compare_with_fuel(db, lhs, b.type_id, ctx, Ghost(fuel));
            worse_of(c, Comparison::Castable)
        },
        (Type::Variant(v), Type::Enum(e)) => {
            let c = compare_with_fuel(db, lhs, e.type_id, ctx, Ghost(fuel));
            if v.original_enum_type_id == e.original_type_id {
                worse_of(c, Comparison::Assignable)
            } else {
                worse_of(c, Comparison::Castable)
            }
        },
        (Type::Enum(e), Type::Variant(v)) => {
            let c = compare_with_fuel(db, e.type_id, rhs, ctx, Ghost(fuel));
            if v.original_enum_type_id == e.original_type_id {
                worse_of(c, Comparison::Assignable)
            } else {
                worse_of(c, Comparison::Castable)
            }
        },
        (Type::Enum(a), Type::Enum(b)) => if a.original_type_id == b.original_type_id {
            compare_with_fuel(db, a.type_id, b.type_id, ctx, Ghost(fuel))
        } else {
            let c = compare_with_fuel(db, a.type_id, rhs, ctx, Ghost(fuel));
            worse_of(c, Comparison::Castable)
        },
        (Type::Enum(a), _) => {
            let c = compare_with_fuel(db, a.type_id, rhs, ctx, Ghost(fuel));
            worse_of(c, Comparison::Castable)
        },
        (_, Type::Enum(b)) => {
            let c = compare_with_fuel(db, lhs, b.type_id, ctx, Ghost(fuel));
            worse_of(c, Comparison::Castable)
        },
        (Type::Variant(a), Type::Variant(b)) => if a.original_type_id == b.original_type_id {
            compare_with_fuel(db, a.type_id, b.type_id, ctx, Ghost(fuel))
        } else {
            let c = compare_with_fuel(db, a.type_id, rhs, ctx, Ghost(fuel));
            worse_of(c, Comparison::Castable)
        },
        (Type::Variant(a), _) => {
            let c = compare_with_fuel(db, a.type_id, rhs, ctx, Ghost(fuel));
            worse_of(c, Comparison::Castable)
        },
        (_, Type::Variant(b)) => {
            let c = compare_with_fuel(db, lhs, b.type_id, ctx, Ghost(fuel));
            worse_of(c, Comparison::Castable)
        },
        (Type::Callable(a), Type::Callable(b)) => {
            let params = compare_with_fuel(db, a.parameters, b.parameters, ctx, Ghost(fuel));
            let ret = compare_with_fuel(db, a.return_type, b.return_type, ctx, Ghost(fuel));
            worse_of(params, ret)
        },
        (Type::Callable(_), _) => compare_with_fuel(db, lhs, db.any, ctx, Ghost(fuel)),
        _ => Comparison::NotEqual,
    }
}

/// How a value of type `lhs` relates to type `rhs`: equal, assignable,
/// castable or unrelated. A pair already being compared counts as
/// assignable; pairs take the more restrictive comparison of their halves;
/// a union on the left the most restrictive of its members, a union on the
/// right the least restrictive of its members that are not `Never`, and at
/// least assignable; generic types are substituted from `ctx`, or compared
/// as inferred, or inferred as `lhs` where `ctx` infers generics.
pub fn compare_type(db: &TypeSystem, lhs: TypeId, rhs: TypeId, ctx: &mut ComparisonContext) -> (result: Comparison)
    requires
        comparison_defined(*db, lhs, rhs, *old(ctx)),
    ensures
        comparison(*db, lhs, rhs, *old(ctx)) == (result, maps_view(final(ctx).inferred@)),
        final(ctx).visited@ == old(ctx).visited@,
        final(ctx).lhs_substitutions@ == old(ctx).lhs_substitutions@,
        final(ctx).rhs_substitutions@ == old(ctx).rhs_substitutions@,
        final(ctx).infer_generics == old(ctx).infer_generics,
        !old(ctx).infer_generics ==> final(ctx).inferred@ == old(ctx).inferred@,
{
    let ghost fuel = choose|fuel: nat|
        #[trigger] compare_fuel(
            db.types@,
            db.any,
            lhs,
            rhs,
            ctx.visited@,
            maps_view(ctx.inferred@),
            frame_of(*ctx),
            fuel,
        ) is Some;
    compare_with_fuel(db, lhs, rhs, ctx, Ghost(fuel))
}

impl TypeSystem {
    /// How a value of type `lhs` relates to type `rhs`, generic types
    /// compared as inferred in `inferred`, and, where `infer_generics`,
    /// inferred into its innermost map.
    pub fn compare_with_generics(
        &self,
        lhs: TypeId,
        rhs: TypeId,
        inferred: &mut Vec<HashMap<usize, usize>>,
        infer_generics: bool,
    ) -> (result: Comparison)
        requires
            defined_from(
                *self,
                lhs,
                rhs,
                seq![],
                maps_view(old(inferred)@),
                Frame { lhs_substitutions: seq![], rhs_substitutions: seq![], infer_generics },
            ),
        ensures
            (result, maps_view(final(inferred)@)) == compared_from(
                *self,
                lhs,
                rhs,
                seq![],
                maps_view(old(inferred)@),
                Frame { lhs_substitutions: seq![], rhs_substitutions: seq![], infer_generics },
            ),
            !infer_generics ==> final(inferred)@ == old(inferred)@,
    {
        let mut ctx = ComparisonContext {
            visited: Vec::new(),
            inferred: Vec::new(),
            infer_generics,
            lhs_substitutions: Vec::new(),
            rhs_substitutions: Vec::new(),
        };
        std::mem::swap(&mut ctx.inferred, inferred);
        assert(ctx.visited@ =~= seq![]);
        assert(maps_view(ctx.lhs_substitutions@) =~= seq![]);
        assert(maps_view(ctx.rhs_substitutions@) =~= seq![]);
        let result = compare_type(self, lhs, rhs, &mut ctx);
        std::mem::swap(&mut ctx.inferred, inferred);
        result
    }

    /// How a value of type `lhs` relates to type `rhs`, with no generic
    /// types substituted or inferred.
    pub fn compare(&self, lhs: TypeId, rhs: TypeId) -> (result: Comparison)
        requires
            defined_from(*self, lhs, rhs, seq![], seq![], no_frame()),
        ensures
            result == compared_from(*self, lhs, rhs, seq![], seq![], no_frame()).0,
    {
        let mut ctx = ComparisonContext {
            visited: Vec::new(),
            inferred: Vec::new(),
            infer_generics: false,
            lhs_substitutions: Vec::new(),
            rhs_substitutions: Vec::new(),
        };
        assert(ctx.visited@ =~= seq![]);
        assert(maps_view(ctx.inferred@) =~= seq![]);
        assert(maps_view(ctx.lhs_substitutions@) =~= seq![]);
        assert(maps_view(ctx.rhs_substitutions@) =~= seq![]);
        compare_type(self, lhs, rhs, &mut ctx)
    }
}

/// Every type is assignable to `Any`: a comparison with a type that
/// resolves to `Any`, of a pair not already being compared, is `Equal`
/// exactly when the left type is `Any` too, and `Assignable` otherwise.
pub proof fn law_any_is_top(
    types: Seq<Type>,
    any: TypeId,
    lhs: TypeId,
    rhs: TypeId,
    visited: Seq<(TypeId, TypeId)>,
    inferred: Seq<Map<usize, usize>>,
    frame: Frame,
    fuel: nat,
)
    requires
        !visited.contains((lhs, rhs)),
        follow(types, rhs, false, types.len()) matches Some(r) && r is Any,
        follow(types, lhs, false, types.len()) matches Some(l) && !(l is Lazy),
        compare_fuel(types, any, lhs, rhs, visited, inferred, frame, fuel) is Some,
    ensures
        ({
            let c = compare_fuel(types, any, lhs, rhs, visited, inferred, frame, fuel)->Some_0.0;
            let l = follow(types, lhs, false, types.len())->Some_0;
            &&& c == Comparison::Equal || c == Comparison::Assignable
            &&& (c == Comparison::Equal) == (l is Any)
        }),
{
}

proof fn lemma_lhs_fold_at_least_assignable(
    types: Seq<Type>,
    any: TypeId,
    items: Seq<TypeId>,
    rhs: TypeId,
    seen: Seq<(TypeId, TypeId)>,
    inferred: Seq<Map<usize, usize>>,
    frame: Frame,
    fuel: nat,
    acc: Comparison,
)
    requires
        rank(acc) >= 1,
    ensures
        union_lhs_fold(types, any, items, rhs, seen, inferred, frame, fuel, acc) matches Some((c, _)) ==> rank(c) >= 1,
    decreases items.len(),
{
    if items.len() > 0 {
        if let Some((c, after)) = compare_fuel(types, any, items[0], rhs, seen, inferred, frame, fuel) {
            lemma_lhs_fold_at_least_assignable(
                types,
                any,
                items.drop_first(),
                rhs,
                seen,
                after,
                frame,
                fuel,
                worse(acc, c),
            );
        }
    }
}

/// A union on the left is never equal to a type that is not `Any`,
/// `Unknown` or a generic.
pub proof fn law_union_on_the_left_is_never_equal(
    types: Seq<Type>,
    any: TypeId,
    lhs: TypeId,
    rhs: TypeId,
    visited: Seq<(TypeId, TypeId)>,
    inferred: Seq<Map<usize, usize>>,
    frame: Frame,
    fuel: nat,
)
    requires
        !visited.contains((lhs, rhs)),
        follow(types, lhs, false, types.len()) matches Some(l) && l is Union,
        follow(types, rhs, false, types.len()) matches Some(r) && !(r is Any || r is Unknown || r is Generic
            || r is Lazy),
        compare_fuel(types, any, lhs, rhs, visited, inferred, frame, fuel) is Some,
    ensures
        compare_fuel(types, any, lhs, rhs, visited, inferred, frame, fuel)->Some_0.0 != Comparison::Equal,
{
    let l = follow(types, lhs, false, types.len())->Some_0;
    let items = l->Union_0;
    lemma_lhs_fold_at_least_assignable(
        types,
        any,
        items@,
        rhs,
        visited.push((lhs, rhs)),
        inferred,
        frame,
        (fuel - 1) as nat,
        Comparison::Assignable,
    );
    let r = follow(types, rhs, false, types.len())->Some_0;
    let seen = visited.push((lhs, rhs));
    assert(leaf_comparison(l, r) is None);
    assert(compare_kinds(types, any, lhs, rhs, l, r, seen, inferred, frame, (fuel - 1) as nat)
        == compare_structure(types, any, lhs, rhs, l, r, seen, inferred, frame, (fuel - 1) as nat));
    assert(compare_fuel(types, any, lhs, rhs, visited, inferred, frame, fuel) == compare_kinds(
        types, any, lhs, rhs, l, r, seen, inferred, frame, (fuel - 1) as nat));
}

/// Nothing but `Unknown`, `Never`, a generic or another union is equal to a
/// union on the right.
pub proof fn law_union_on_the_right_is_never_equal(
    types: Seq<Type>,
    any: TypeId,
    lhs: TypeId,
    rhs: TypeId,
    visited: Seq<(TypeId, TypeId)>,
    inferred: Seq<Map<usize, usize>>,
    frame: Frame,
    fuel: nat,
)
    requires
        !visited.contains((lhs, rhs)),
        follow(types, rhs, false, types.len()) matches Some(r) && r is Union,
        follow(types, lhs, false, types.len()) matches Some(l) && !(l is Unknown || l is Never || l is Generic
            || l is Union || l is Lazy),
        compare_fuel(types, any, lhs, rhs, visited, inferred, frame, fuel) is Some,
    ensures
        compare_fuel(types, any, lhs, rhs, visited, inferred, frame, fuel)->Some_0.0 != Comparison::Equal,
{
    let l = follow(types, lhs, false, types.len())->Some_0;
    let r = follow(types, rhs, false, types.len())->Some_0;
    let seen = visited.push((lhs, rhs));
    let f = (fuel - 1) as nat;
    assert(leaf_comparison(l, r) is None);
    assert(compare_kinds(types, any, lhs, rhs, l, r, seen, inferred, frame, f) == compare_structure(
        types, any, lhs, rhs, l, r, seen, inferred, frame, f));
    assert(compare_structure(types, any, lhs, rhs, l, r, seen, inferred, frame, f) == at_least(
        union_rhs_fold(types, any, lhs, r->Union_0@, seen, inferred, frame, f, Comparison::NotEqual),
        Comparison::Assignable,
    ));
    assert(compare_fuel(types, any, lhs, rhs, visited, inferred, frame, fuel) == compare_kinds(
        types, any, lhs, rhs, l, r, seen, inferred, frame, f));
}

} // verus!
