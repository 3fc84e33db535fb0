use rue::type_check::{check_type, check_union_against_rhs, CheckError, Type, TypeId, TypeSystem};

/// A type system with the standard types; `any` is an atom or a pair of
/// `any`s.
struct Standard {
    db: TypeSystem,
    any: TypeId,
    bytes: TypeId,
    bytes32: TypeId,
    public_key: TypeId,
    int: TypeId,
    bool: TypeId,
    nil: TypeId,
}

fn standard() -> Standard {
    let types = vec![
        Type::Union(vec![TypeId(1), TypeId(7)]),
        Type::Bytes,
        Type::Bytes32,
        Type::PublicKey,
        Type::Int,
        Type::Bool,
        Type::Nil,
        Type::Pair(TypeId(0), TypeId(0)),
    ];
    Standard {
        db: TypeSystem { types },
        any: TypeId(0),
        bytes: TypeId(1),
        bytes32: TypeId(2),
        public_key: TypeId(3),
        int: TypeId(4),
        bool: TypeId(5),
        nil: TypeId(6),
    }
}

fn add_type(db: &mut TypeSystem, ty: Type) -> TypeId {
    db.types.push(ty);
    TypeId(db.types.len() - 1)
}

#[test]
fn incompatible_atoms_cannot_be_checked() {
    let s = standard();
    assert!(matches!(s.db.check(s.bytes32, s.public_key), Err(CheckError::Impossible(..))));
    assert!(matches!(s.db.check(s.nil, s.bytes32), Err(CheckError::Impossible(..))));
}

#[test]
fn atoms_check_by_length_bool_and_nil() {
    let s = standard();
    assert_eq!(s.db.check(s.bytes, s.bytes32).unwrap().to_string(), "(= (strlen val) 32)");
    assert_eq!(s.db.check(s.int, s.public_key).unwrap().to_string(), "(= (strlen val) 48)");
    assert_eq!(s.db.check(s.bytes, s.bool).unwrap().to_string(), "(any (= val ()) (= val 1))");
    assert_eq!(s.db.check(s.bool, s.nil).unwrap().to_string(), "(= val ())");
    assert_eq!(s.db.check(s.nil, s.bool).unwrap().to_string(), "1");
    assert_eq!(s.db.check(s.bytes32, s.int).unwrap().to_string(), "1");
}

#[test]
fn any_against_bytes32_checks_shape_and_length() {
    let s = standard();
    assert_eq!(
        s.db.check(s.any, s.bytes32).unwrap().to_string(),
        "(and (not (l val)) (= (strlen val) 32))"
    );
}

#[test]
fn any_against_int_checks_shape() {
    let s = standard();
    assert_eq!(s.db.check(s.any, s.int).unwrap().to_string(), "(not (l val))");
}

#[test]
fn any_against_any_is_recursive() {
    let s = standard();
    assert!(matches!(s.db.check(s.any, s.any), Err(CheckError::Recursive(..))));
}

#[test]
fn optional_pair_against_nil_and_pair() {
    let mut s = standard();
    let pair = add_type(&mut s.db, Type::Pair(s.int, s.int));
    let optional_pair = add_type(&mut s.db, Type::Union(vec![pair, s.nil]));
    assert_eq!(s.db.check(optional_pair, s.nil).unwrap().to_string(), "(and (not (l val)) (= val ()))");
    assert_eq!(s.db.check(optional_pair, pair).unwrap().to_string(), "(and (l val) 1)");
}

#[test]
fn simple_union_against_public_key_checks_length() {
    let mut s = standard();
    let union = add_type(&mut s.db, Type::Union(vec![s.bytes32, s.public_key]));
    assert_eq!(s.db.check(union, s.public_key).unwrap().to_string(), "(= (strlen val) 48)");
}

#[test]
fn any_against_nested_pair() {
    let mut s = standard();
    let int_nil_pair = add_type(&mut s.db, Type::Pair(s.int, s.nil));
    let ty = add_type(&mut s.db, Type::Pair(s.bytes32, int_nil_pair));
    assert_eq!(
        s.db.check(s.any, ty).unwrap().to_string(),
        "(and (l val) (all (and (not (l (f val))) (= (strlen (f val)) 32)) (and (l (r val)) (all (not (l (f (r val)))) (and (not (l (r (r val)))) (= (r (r val)) ()))))))"
    );
}

#[test]
fn union_on_the_right_becomes_a_disjunction() {
    let mut s = standard();
    let either = add_type(&mut s.db, Type::Union(vec![s.bytes32, s.nil]));
    let mut visited = Vec::new();
    let check = check_type(&s.db, s.bytes, either, &mut visited).unwrap();
    assert_eq!(check.to_string(), "(or (= (strlen val) 32) (= val ()))");
    assert!(visited.is_empty());
}

#[test]
fn union_check_fails_on_a_pair_already_visited() {
    let s = standard();
    let mut visited = vec![(s.bytes, s.int)];
    let result = check_union_against_rhs(&s.db, s.any, &vec![s.bytes], s.int, &mut visited);
    assert_eq!(result.unwrap_err(), CheckError::Recursive(s.bytes, s.int));
    assert_eq!(visited, vec![(s.bytes, s.int)]);
}

#[test]
fn union_of_atoms_against_a_pair_is_impossible() {
    let mut s = standard();
    let pair = add_type(&mut s.db, Type::Pair(s.int, s.int));
    let mut visited = Vec::new();
    let result = check_union_against_rhs(&s.db, s.any, &vec![s.bytes, s.nil], pair, &mut visited);
    assert_eq!(result.unwrap_err(), CheckError::Impossible(s.any, pair));
    assert!(visited.is_empty());
}
