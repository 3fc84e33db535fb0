use rue::field_access::{field_access, FieldAccess, FieldTarget, Rest};

fn names(list: &[&str]) -> Vec<String> {
    list.iter().map(|name| name.to_string()).collect()
}

#[test]
fn pairs_have_first_and_rest() {
    assert_eq!(field_access(&FieldTarget::Pair, &"first".to_string()), FieldAccess::First);
    assert_eq!(field_access(&FieldTarget::Pair, &"rest".to_string()), FieldAccess::Rest);
    assert_eq!(
        field_access(&FieldTarget::Pair, &"length".to_string()),
        FieldAccess::InvalidFieldAccess
    );
}

#[test]
fn bytes_have_a_length() {
    assert_eq!(field_access(&FieldTarget::Bytes, &"length".to_string()), FieldAccess::Length);
    assert_eq!(field_access(&FieldTarget::Bytes32, &"length".to_string()), FieldAccess::Length);
    assert_eq!(
        field_access(&FieldTarget::Bytes, &"first".to_string()),
        FieldAccess::InvalidFieldAccess
    );
    assert_eq!(
        field_access(&FieldTarget::Other, &"length".to_string()),
        FieldAccess::InvalidFieldAccess
    );
}

#[test]
fn struct_fields_are_found_by_name() {
    let point = FieldTarget::Struct { fields: names(&["x", "y"]), rest: Rest::Nil };
    assert_eq!(
        field_access(&point, &"x".to_string()),
        FieldAccess::StructField { index: 0, tail: false, optional: false }
    );
    assert_eq!(
        field_access(&point, &"y".to_string()),
        FieldAccess::StructField { index: 1, tail: false, optional: false }
    );
    assert_eq!(field_access(&point, &"z".to_string()), FieldAccess::UnknownField);
}

#[test]
fn the_last_field_takes_the_rest_unless_nil_terminated() {
    let spread = FieldTarget::Struct { fields: names(&["a", "b"]), rest: Rest::Spread };
    assert_eq!(
        field_access(&spread, &"b".to_string()),
        FieldAccess::StructField { index: 1, tail: true, optional: false }
    );
    assert_eq!(
        field_access(&spread, &"a".to_string()),
        FieldAccess::StructField { index: 0, tail: false, optional: false }
    );
    let optional = FieldTarget::Variant { fields: Some(names(&["a", "b"])), rest: Rest::Optional };
    assert_eq!(
        field_access(&optional, &"b".to_string()),
        FieldAccess::VariantField { index: 1, tail: true, optional: true }
    );
}

#[test]
fn a_variant_without_fields_has_none() {
    let unit = FieldTarget::Variant { fields: None, rest: Rest::Nil };
    assert_eq!(field_access(&unit, &"a".to_string()), FieldAccess::UnknownField);
}
