use std::collections::HashMap;

use rue::check::Comparison;
use rue::comparison::{compare_type, ComparisonContext, Enum, Struct, Type, TypeSystem, Variant};
use rue::type_check::TypeId;

struct Std {
    never: TypeId,
    any: TypeId,
    bytes: TypeId,
    bytes32: TypeId,
    public_key: TypeId,
    int: TypeId,
    nil: TypeId,
    generic_list_item: TypeId,
    unmapped_list: TypeId,
}

fn add_type(db: &mut TypeSystem, ty: Type) -> TypeId {
    db.types.push(ty);
    TypeId(db.types.len() - 1)
}

fn add_list(db: &mut TypeSystem, nil: TypeId, item: TypeId) -> TypeId {
    let list = add_type(db, Type::Unknown);
    let pair = add_type(db, Type::Pair(item, list));
    db.types[list.0] = Type::Union(vec![nil, pair]);
    list
}

fn add_tuple(db: &mut TypeSystem, items: &[TypeId]) -> TypeId {
    let mut rest = items[items.len() - 1];
    for item in items[..items.len() - 1].iter().rev() {
        rest = add_type(db, Type::Pair(*item, rest));
    }
    rest
}

fn add_struct(db: &mut TypeSystem, nil: TypeId, fields: &[TypeId]) -> TypeId {
    let id = add_type(db, Type::Unknown);
    let mut items = fields.to_vec();
    items.push(nil);
    let inner = add_tuple(db, &items);
    db.types[id.0] = Type::Struct(Struct { original_type_id: id, type_id: inner });
    id
}

fn standard() -> (TypeSystem, Std) {
    let mut db = TypeSystem { types: Vec::new(), any: TypeId(0) };
    add_type(&mut db, Type::Unknown);
    let never = add_type(&mut db, Type::Never);
    let any = add_type(&mut db, Type::Any);
    let bytes = add_type(&mut db, Type::Bytes);
    let bytes32 = add_type(&mut db, Type::Bytes32);
    let public_key = add_type(&mut db, Type::PublicKey);
    let int = add_type(&mut db, Type::Int);
    let nil = add_type(&mut db, Type::Nil);
    let generic_list_item = add_type(&mut db, Type::Generic);
    let unmapped_list = add_list(&mut db, nil, generic_list_item);
    db.any = any;
    let types = Std { never, any, bytes, bytes32, public_key, int, nil, generic_list_item, unmapped_list };
    (db, types)
}

#[test]
fn test_compare_int_int() {
    let (db, types) = standard();
    assert_eq!(db.compare(types.int, types.int), Comparison::Equal);
}

#[test]
fn test_compare_int_bytes() {
    let (db, types) = standard();
    assert_eq!(db.compare(types.int, types.bytes), Comparison::Castable);
}

#[test]
fn test_compare_bytes_int() {
    let (db, types) = standard();
    assert_eq!(db.compare(types.bytes, types.int), Comparison::Castable);
}

#[test]
fn test_compare_bytes_bytes32() {
    let (db, types) = standard();
    assert_eq!(db.compare(types.bytes, types.bytes32), Comparison::NotEqual);
}

#[test]
fn test_compare_bytes32_bytes() {
    let (db, types) = standard();
    assert_eq!(db.compare(types.bytes32, types.bytes), Comparison::Assignable);
}

#[test]
fn test_compare_bytes_public_key() {
    let (db, types) = standard();
    assert_eq!(db.compare(types.bytes, types.public_key), Comparison::NotEqual);
}

#[test]
fn test_compare_public_key_bytes() {
    let (db, types) = standard();
    assert_eq!(db.compare(types.public_key, types.bytes), Comparison::Castable);
}

#[test]
fn test_compare_bytes32_public_key() {
    let (db, types) = standard();
    assert_eq!(db.compare(types.bytes32, types.public_key), Comparison::NotEqual);
}

#[test]
fn test_compare_public_key_bytes32() {
    let (db, types) = standard();
    assert_eq!(db.compare(types.public_key, types.bytes32), Comparison::NotEqual);
}

#[test]
fn test_compare_bytes_any() {
    let (db, types) = standard();
    assert_eq!(db.compare(types.bytes, types.any), Comparison::Assignable);
}

#[test]
fn test_compare_any_bytes() {
    let (db, types) = standard();
    assert_eq!(db.compare(types.any, types.bytes), Comparison::NotEqual);
}

#[test]
fn test_compare_bytes32_any() {
    let (db, types) = standard();
    assert_eq!(db.compare(types.bytes32, types.any), Comparison::Assignable);
}

#[test]
fn test_compare_any_bytes32() {
    let (db, types) = standard();
    assert_eq!(db.compare(types.any, types.bytes32), Comparison::NotEqual);
}

#[test]
fn test_compare_list_any() {
    let (mut db, types) = standard();
    let list = add_list(&mut db, types.nil, types.int);
    assert_eq!(db.compare(list, types.any), Comparison::Assignable);
}

#[test]
fn test_compare_pair_any() {
    let (mut db, types) = standard();
    let pair = add_type(&mut db, Type::Pair(types.int, types.public_key));
    assert_eq!(db.compare(pair, types.any), Comparison::Assignable);
}

#[test]
fn test_compare_int_any() {
    let (db, types) = standard();
    assert_eq!(db.compare(types.int, types.any), Comparison::Assignable);
}

#[test]
fn test_compare_public_key_any() {
    let (db, types) = standard();
    assert_eq!(db.compare(types.public_key, types.any), Comparison::Assignable);
}

#[test]
fn test_compare_complex_any() {
    let (mut db, types) = standard();
    let pair_inner_inner = add_type(&mut db, Type::Pair(types.any, types.nil));
    let pair_inner = add_type(&mut db, Type::Pair(pair_inner_inner, pair_inner_inner));
    let pair = add_type(&mut db, Type::Pair(types.int, pair_inner));
    let list = add_list(&mut db, types.nil, pair);
    assert_eq!(db.compare(list, types.any), Comparison::Assignable);
}

#[test]
fn test_point_struct_any() {
    let (mut db, types) = standard();
    let point = add_struct(&mut db, types.nil, &[types.int, types.int]);
    assert_eq!(db.compare(point, types.any), Comparison::Assignable);
}

#[test]
fn test_compare_any_any() {
    let (db, types) = standard();
    assert_eq!(db.compare(types.any, types.any), Comparison::Equal);
}

#[test]
fn test_compare_incompatible_pair() {
    let (mut db, types) = standard();
    let lhs = add_type(&mut db, Type::Pair(types.int, types.public_key));
    let rhs = add_type(&mut db, Type::Pair(types.bytes, types.nil));
    assert_eq!(db.compare(lhs, rhs), Comparison::NotEqual);
}

#[test]
fn test_compare_castable_pair() {
    let (mut db, types) = standard();
    let lhs = add_type(&mut db, Type::Pair(types.int, types.public_key));
    let rhs = add_type(&mut db, Type::Pair(types.bytes, types.bytes));
    assert_eq!(db.compare(lhs, rhs), Comparison::Castable);
}

#[test]
fn test_compare_assignable_pair() {
    let (mut db, types) = standard();
    let lhs = add_type(&mut db, Type::Pair(types.int, types.public_key));
    let rhs = add_type(&mut db, Type::Pair(types.any, types.any));
    assert_eq!(db.compare(lhs, rhs), Comparison::Assignable);
}

#[test]
fn test_compare_nil_list() {
    let (mut db, types) = standard();
    let list = add_list(&mut db, types.nil, types.int);
    assert_eq!(db.compare(types.nil, list), Comparison::Assignable);
}

#[test]
fn test_compare_pair_list() {
    let (mut db, types) = standard();
    let pair = add_type(&mut db, Type::Pair(types.int, types.nil));
    let list = add_list(&mut db, types.nil, types.int);
    assert_eq!(db.compare(pair, list), Comparison::Assignable);
}

#[test]
fn test_compare_generic_inference() {
    let (mut db, types) = standard();
    let generic = add_type(&mut db, Type::Generic);
    let mut stack = vec![HashMap::new()];

    assert_eq!(
        db.compare_with_generics(types.int, generic, &mut stack, true),
        Comparison::Assignable
    );
    assert_eq!(stack.len(), 1);
    assert_eq!(stack[0].get(&generic.0), Some(&types.int.0));

    for infer in [true, false] {
        assert_eq!(
            db.compare_with_generics(types.bytes, generic, &mut stack, infer),
            Comparison::Castable
        );
        assert_eq!(
            db.compare_with_generics(types.any, generic, &mut stack, infer),
            Comparison::NotEqual
        );
    }
}

#[test]
fn test_compare_enum_generic_inference() {
    let (mut db, _types) = standard();
    let generic = add_type(&mut db, Type::Generic);
    let mut stack = vec![HashMap::new()];

    let enum_type = add_type(&mut db, Type::Unknown);
    let variant = add_type(&mut db, Type::Unknown);
    let variant_inner = add_type(&mut db, Type::Value(Vec::new()));
    db.types[variant.0] = Type::Variant(Variant {
        original_enum_type_id: enum_type,
        original_type_id: variant,
        type_id: variant_inner,
    });
    db.types[enum_type.0] = Type::Enum(Enum { original_type_id: enum_type, type_id: variant });

    assert_eq!(
        db.compare_with_generics(enum_type, generic, &mut stack, true),
        Comparison::Assignable
    );
    assert_eq!(stack.len(), 1);
    assert_eq!(stack[0].get(&generic.0), Some(&enum_type.0));
}

#[test]
fn test_compare_union_to_rhs_incompatible() {
    let (mut db, types) = standard();
    let pair = add_type(&mut db, Type::Pair(types.int, types.public_key));
    let union = add_type(&mut db, Type::Union(vec![types.bytes32, pair, types.nil]));
    assert_eq!(db.compare(union, types.bytes), Comparison::NotEqual);
}

#[test]
fn test_compare_union_to_rhs_superset() {
    let (mut db, types) = standard();
    let pair = add_type(&mut db, Type::Pair(types.int, types.public_key));
    let union = add_type(&mut db, Type::Union(vec![types.bytes, pair]));
    assert_eq!(db.compare(union, types.bytes), Comparison::NotEqual);
}

#[test]
fn test_compare_union_to_rhs_assignable() {
    let (mut db, types) = standard();
    let union = add_type(&mut db, Type::Union(vec![types.bytes32, types.nil]));
    assert_eq!(db.compare(union, types.bytes), Comparison::Assignable);
}

#[test]
fn test_compare_lhs_to_union_incompatible() {
    let (mut db, types) = standard();
    let pair = add_type(&mut db, Type::Pair(types.int, types.public_key));
    let union = add_type(&mut db, Type::Union(vec![types.bytes32, pair, types.nil]));
    assert_eq!(db.compare(types.bytes, union), Comparison::NotEqual);
}

#[test]
fn test_compare_same_derivative_struct() {
    let (mut db, types) = standard();
    let struct_type = add_struct(&mut db, types.nil, &[types.int, types.int]);
    let Type::Struct(original) = db.types[struct_type.0].clone() else {
        unreachable!();
    };
    let derivative_struct_type = add_type(
        &mut db,
        Type::Struct(Struct { original_type_id: struct_type, type_id: original.type_id }),
    );
    assert_eq!(db.compare(derivative_struct_type, struct_type), Comparison::Equal);
    assert_eq!(db.compare(struct_type, derivative_struct_type), Comparison::Equal);
}

#[test]
fn test_compare_different_derivative_struct() {
    let (mut db, types) = standard();
    let struct_type = add_struct(&mut db, types.nil, &[types.int, types.int]);
    let new_inner = add_tuple(&mut db, &[types.int, types.bytes, types.nil]);
    let derivative_struct_type = add_type(
        &mut db,
        Type::Struct(Struct { original_type_id: struct_type, type_id: new_inner }),
    );
    assert_eq!(db.compare(derivative_struct_type, struct_type), Comparison::Castable);
    assert_eq!(db.compare(struct_type, derivative_struct_type), Comparison::Castable);
}

#[test]
fn test_compare_different_struct() {
    let (mut db, types) = standard();
    let struct_type = add_struct(&mut db, types.nil, &[types.int, types.int]);
    let other_struct_type = add_struct(&mut db, types.nil, &[types.int, types.int]);
    assert_eq!(db.compare(struct_type, other_struct_type), Comparison::Castable);
}

#[test]
fn test_compare_generic_equal() {
    let (mut db, types) = standard();
    let generic = add_type(&mut db, Type::Generic);
    assert_eq!(db.compare(types.int, generic), Comparison::NotEqual);
    assert_eq!(db.compare(generic, generic), Comparison::Equal);
}

#[test]
fn test_compare_generic_list_assignable() {
    let (mut db, types) = standard();
    let generic = add_type(&mut db, Type::Generic);
    let list = add_list(&mut db, types.nil, generic);
    let pair = add_type(&mut db, Type::Pair(generic, list));
    assert_eq!(db.compare(types.nil, list), Comparison::Assignable);
    assert_eq!(db.compare(list, list), Comparison::Assignable);
    assert_eq!(db.compare(pair, list), Comparison::Assignable);
}

#[test]
fn test_compare_pair_union() {
    let (mut db, types) = standard();
    let pair_enum = add_type(&mut db, Type::Pair(types.int, types.nil));
    let pair_enum = add_type(&mut db, Type::Pair(types.int, pair_enum));
    let zero = add_type(&mut db, Type::Value(Vec::new()));
    let pair_enum = add_type(&mut db, Type::Pair(zero, pair_enum));

    let int_enum = add_type(&mut db, Type::Pair(types.int, types.nil));
    let one = add_type(&mut db, Type::Value(vec![1]));
    let int_enum = add_type(&mut db, Type::Pair(one, int_enum));

    let union = add_type(&mut db, Type::Union(vec![pair_enum, int_enum]));
    assert_eq!(db.compare(pair_enum, union), Comparison::Assignable);
}

#[test]
fn test_compare_list_unmapped_list_generics() {
    let (mut db, types) = standard();
    let mut stack = vec![HashMap::new()];
    let list = add_list(&mut db, types.nil, types.int);
    assert_eq!(
        db.compare_with_generics(list, types.unmapped_list, &mut stack, true),
        Comparison::Assignable
    );
    assert_eq!(stack, vec![[(types.generic_list_item.0, types.int.0)].into()]);
}

#[test]
fn test_compare_tuple_list_generics() {
    let (mut db, types) = standard();
    let mut stack = vec![HashMap::new()];
    let tuple = add_tuple(&mut db, &[types.int, types.int, types.int, types.nil]);
    let generic = add_type(&mut db, Type::Generic);
    let list = add_list(&mut db, types.nil, generic);
    assert_eq!(
        db.compare_with_generics(tuple, list, &mut stack, true),
        Comparison::Assignable
    );
    assert_eq!(stack, vec![[(generic.0, types.int.0)].into()]);
}

#[test]
fn values_compare_by_their_bytes() {
    let (mut db, types) = standard();
    let zero = add_type(&mut db, Type::Value(Vec::new()));
    let one = add_type(&mut db, Type::Value(vec![1]));
    let other_one = add_type(&mut db, Type::Value(vec![1]));
    let wide = add_type(&mut db, Type::Value(vec![7; 32]));
    let truth = add_type(&mut db, Type::True);
    assert_eq!(db.compare(zero, types.nil), Comparison::Castable);
    assert_eq!(db.compare(one, types.nil), Comparison::NotEqual);
    assert_eq!(db.compare(one, truth), Comparison::Castable);
    assert_eq!(db.compare(one, other_one), Comparison::Equal);
    assert_eq!(db.compare(one, zero), Comparison::NotEqual);
    assert_eq!(db.compare(wide, types.bytes32), Comparison::Castable);
    assert_eq!(db.compare(one, types.int), Comparison::Assignable);
}

#[test]
fn union_members_that_are_never_are_skipped() {
    let (mut db, types) = standard();
    let only_never = add_type(&mut db, Type::Union(vec![types.never]));
    let with_int = add_type(&mut db, Type::Union(vec![types.never, types.int]));
    assert_eq!(db.compare(types.int, only_never), Comparison::NotEqual);
    assert_eq!(db.compare(types.int, with_int), Comparison::Assignable);
}

#[test]
fn substitutions_replace_generics_on_either_side() {
    let (mut db, types) = standard();
    let generic = add_type(&mut db, Type::Generic);
    let mut ctx = ComparisonContext {
        visited: Vec::new(),
        inferred: Vec::new(),
        infer_generics: false,
        lhs_substitutions: vec![[(generic.0, types.bytes32.0)].into()],
        rhs_substitutions: vec![[(generic.0, types.int.0)].into()],
    };
    assert_eq!(compare_type(&db, generic, types.bytes, &mut ctx), Comparison::Assignable);
    assert_eq!(compare_type(&db, types.bytes, generic, &mut ctx), Comparison::Castable);
    assert!(ctx.visited.is_empty());
}

#[test]
fn a_pair_already_compared_counts_as_assignable() {
    let (db, types) = standard();
    let mut ctx = ComparisonContext {
        visited: vec![(types.any, types.bytes)],
        inferred: Vec::new(),
        infer_generics: false,
        lhs_substitutions: Vec::new(),
        rhs_substitutions: Vec::new(),
    };
    assert_eq!(compare_type(&db, types.any, types.bytes, &mut ctx), Comparison::Assignable);
    assert_eq!(ctx.visited, vec![(types.any, types.bytes)]);
}
