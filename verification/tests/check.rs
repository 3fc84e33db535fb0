use rue::check::{fmt_check, fmt_val, simplify_check, Check, Comparison, TypePath};

fn b(check: Check) -> Box<Check> {
    Box::new(check)
}

#[test]
fn unit_checks_print_against_val() {
    assert_eq!(Check::Trivial.to_string(), "1");
    assert_eq!(Check::IsPair.to_string(), "(l val)");
    assert_eq!(Check::IsAtom.to_string(), "(not (l val))");
    assert_eq!(Check::IsBool.to_string(), "(any (= val ()) (= val 1))");
    assert_eq!(Check::IsNil.to_string(), "(= val ())");
    assert_eq!(Check::Length(32).to_string(), "(= (strlen val) 32)");
    assert_eq!(Check::Length(0).to_string(), "(= (strlen val) 0)");
    assert_eq!(Check::Length(1234567).to_string(), "(= (strlen val) 1234567)");
}

#[test]
fn pair_checks_follow_the_path() {
    assert_eq!(Check::Pair(b(Check::IsAtom), b(Check::Trivial)).to_string(), "(not (l (f val)))");
    assert_eq!(Check::Pair(b(Check::Trivial), b(Check::IsNil)).to_string(), "(= (r val) ())");
    assert_eq!(Check::Pair(b(Check::Trivial), b(Check::Trivial)).to_string(), "1");
    assert_eq!(
        Check::Pair(b(Check::IsAtom), b(Check::IsNil)).to_string(),
        "(all (not (l (f val))) (= (r val) ()))"
    );
    assert_eq!(
        Check::Pair(b(Check::Trivial), b(Check::Pair(b(Check::IsNil), b(Check::Trivial)))).to_string(),
        "(= (f (r val)) ())"
    );
}

#[test]
fn compound_checks_print_each_part() {
    let check = Check::If(b(Check::IsPair), b(Check::Or(vec![Check::IsNil])), b(Check::And(vec![])));
    assert_eq!(check.to_string(), "(if (l val) (or (= val ())) (and))");
}

#[test]
fn fmt_val_wraps_steps_last_outermost() {
    let mut out = String::from("x ");
    fmt_val(&mut out, &vec![TypePath::Rest, TypePath::First]);
    assert_eq!(out, "x (f (r val))");
}

#[test]
fn fmt_check_appends_and_restores_the_path() {
    let mut out = String::from("> ");
    let mut path = vec![TypePath::First];
    fmt_check(&Check::Pair(b(Check::IsAtom), b(Check::IsNil)), &mut out, &mut path);
    assert_eq!(out, "> (all (not (l (f (f val)))) (= (r (f val)) ()))");
    assert_eq!(path, vec![TypePath::First]);
}

#[test]
fn simplify_turns_zero_length_into_nil() {
    assert_eq!(simplify_check(Check::Length(0)).to_string(), "(= val ())");
    assert_eq!(simplify_check(Check::Length(48)).to_string(), "(= (strlen val) 48)");
}

#[test]
fn simplify_flattens_conjunctions_and_drops_repeats() {
    let check = Check::And(vec![
        Check::IsAtom,
        Check::And(vec![Check::IsAtom, Check::Trivial, Check::Length(32)]),
    ]);
    assert_eq!(simplify_check(check).to_string(), "(and (not (l val)) (= (strlen val) 32))");
    assert_eq!(simplify_check(Check::And(vec![Check::IsPair])).to_string(), "(l val)");
    assert_eq!(simplify_check(Check::And(vec![Check::Trivial])).to_string(), "1");
}

#[test]
fn simplify_sorts_disjunctions_into_atoms_and_pairs() {
    let atoms_only = Check::Or(vec![
        Check::And(vec![Check::IsAtom, Check::Length(32)]),
        Check::And(vec![Check::IsAtom, Check::IsNil]),
    ]);
    assert_eq!(
        simplify_check(atoms_only).to_string(),
        "(and (not (l val)) (or (and (= (strlen val) 32)) (and (= val ()))))"
    );

    let both = Check::Or(vec![
        Check::And(vec![Check::IsAtom, Check::Length(32)]),
        Check::And(vec![Check::IsPair, Check::Pair(b(Check::IsAtom), b(Check::IsAtom))]),
    ]);
    assert_eq!(
        simplify_check(both).to_string(),
        "(if (l val) (or (and (all (not (l (f val))) (not (l (r val)))))) (or (and (= (strlen val) 32))))"
    );

    let more_atoms = Check::Or(vec![
        Check::And(vec![Check::IsAtom, Check::Length(32)]),
        Check::And(vec![Check::IsAtom, Check::IsNil]),
        Check::And(vec![Check::IsPair, Check::IsNil]),
    ]);
    assert_eq!(
        simplify_check(more_atoms).to_string(),
        "(if (not (l val)) (or (and (= (strlen val) 32)) (and (= val ()))) (or (and (= val ()))))"
    );
}

#[test]
fn simplify_takes_nested_disjunctions_as_simplified() {
    let check = Check::Or(vec![Check::Or(vec![Check::And(vec![Check::IsAtom, Check::IsNil])])]);
    assert_eq!(
        simplify_check(check).to_string(),
        "(and (not (l val)) (or (and (or (and (= val ()))))))"
    );
}

#[test]
fn simplify_drops_alternatives_without_a_shape() {
    let check = Check::Or(vec![Check::IsNil, Check::And(vec![Check::IsAtom, Check::IsBool])]);
    assert_eq!(
        simplify_check(check).to_string(),
        "(and (not (l val)) (or (and (any (= val ()) (= val 1)))))"
    );
}

#[test]
fn nested_pair_check_prints_like_the_type_checker_output() {
    let check = Check::And(vec![
        Check::IsPair,
        Check::Pair(
            b(Check::And(vec![Check::IsAtom, Check::Length(32)])),
            b(Check::And(vec![
                Check::IsPair,
                Check::Pair(b(Check::IsAtom), b(Check::And(vec![Check::IsAtom, Check::IsNil]))),
            ])),
        ),
    ]);
    assert_eq!(
        simplify_check(check).to_string(),
        "(and (l val) (all (and (not (l (f val))) (= (strlen (f val)) 32)) (and (l (r val)) (all (not (l (f (r val)))) (and (not (l (r (r val)))) (= (r (r val)) ()))))))"
    );
}

#[test]
fn comparisons_are_ordered_as_declared() {
    assert!(Comparison::Equal < Comparison::Assignable);
    assert!(Comparison::Assignable < Comparison::Castable);
    assert!(Comparison::Castable < Comparison::NotEqual);
}

#[test]
fn cloned_checks_are_equal() {
    let check = Check::If(
        b(Check::IsPair),
        b(Check::And(vec![Check::Length(3), Check::Pair(b(Check::IsNil), b(Check::Trivial))])),
        b(Check::Or(vec![Check::IsBool])),
    );
    let copy = check.clone();
    assert_eq!(copy, check);
    assert_eq!(copy.to_string(), check.to_string());
}

#[test]
fn simplify_keeps_the_meaning_of_a_check_without_disjunctions() {
    let check = Check::If(
        b(Check::IsPair),
        b(Check::Pair(
            b(Check::And(vec![Check::Length(0), Check::Trivial])),
            b(Check::And(vec![Check::IsAtom, Check::And(vec![Check::IsAtom])])),
        )),
        b(Check::Length(0)),
    );
    assert_eq!(
        simplify_check(check).to_string(),
        "(if (l val) (all (= (f val) ()) (not (l (r val)))) (= val ()))"
    );
}
