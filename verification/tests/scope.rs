use rue::scope::{Scope, SymbolId, TypeId};

#[test]
fn symbols_are_found_by_name_and_named_by_id() {
    let mut scope = Scope::default();
    assert_eq!(scope.symbol("x"), None);
    scope.define_symbol("x".to_string(), SymbolId(7));
    scope.define_symbol("y".to_string(), SymbolId(3));
    assert_eq!(scope.symbol("x"), Some(SymbolId(7)));
    assert_eq!(scope.symbol("y"), Some(SymbolId(3)));
    assert_eq!(scope.symbol_name(SymbolId(7)), Some("x"));
    assert_eq!(scope.symbol_name(SymbolId(4)), None);
    assert!(scope.is_local(SymbolId(3)));
    assert!(!scope.is_local(SymbolId(4)));
    assert_eq!(scope.local_symbols(), vec![SymbolId(7), SymbolId(3)]);
}

#[test]
fn redefining_a_name_keeps_its_place() {
    let mut scope = Scope::default();
    scope.define_symbol("x".to_string(), SymbolId(1));
    scope.define_symbol("y".to_string(), SymbolId(2));
    scope.define_symbol("x".to_string(), SymbolId(5));
    assert_eq!(scope.symbol("x"), Some(SymbolId(5)));
    assert_eq!(scope.symbol("y"), Some(SymbolId(2)));
    assert_eq!(scope.symbol_name(SymbolId(1)), Some("x"));
    assert_eq!(scope.symbol_name(SymbolId(5)), Some("x"));
    assert_eq!(scope.local_symbols(), vec![SymbolId(1), SymbolId(2), SymbolId(5)]);
}

#[test]
fn types_live_apart_from_symbols() {
    let mut scope = Scope::default();
    scope.define_type("Int".to_string(), TypeId(0));
    scope.define_symbol("Int".to_string(), SymbolId(9));
    assert_eq!(scope.ty("Int"), Some(TypeId(0)));
    assert_eq!(scope.symbol("Int"), Some(SymbolId(9)));
    assert_eq!(scope.name_of_type(TypeId(0)), Some("Int"));
    assert_eq!(scope.name_of_type(TypeId(9)), None);
    assert_eq!(scope.ty("Bool"), None);
    scope.define_type("Bool".to_string(), TypeId(1));
    assert_eq!(scope.local_types(), vec![TypeId(0), TypeId(1)]);
    assert_eq!(scope.local_symbols(), vec![SymbolId(9)]);
}
