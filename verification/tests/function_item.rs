use rue::function_item::{function_kind, plan_parameters, FunctionKind};

#[test]
fn only_a_final_spread_ends_the_arguments_without_nil() {
    let plan = plan_parameters(&vec![false, false, true]);
    assert!(!plan.nil_terminated);
    assert!(plan.non_final_spreads.is_empty());

    let plan = plan_parameters(&vec![false, false]);
    assert!(plan.nil_terminated);

    let plan = plan_parameters(&vec![]);
    assert!(plan.nil_terminated);
    assert!(plan.non_final_spreads.is_empty());
}

#[test]
fn spreads_before_the_last_parameter_are_reported() {
    let plan = plan_parameters(&vec![true, false, true, true]);
    assert_eq!(plan.non_final_spreads, vec![0, 2]);
    assert!(!plan.nil_terminated);

    let plan = plan_parameters(&vec![true, false]);
    assert_eq!(plan.non_final_spreads, vec![0]);
    assert!(plan.nil_terminated);
}

#[test]
fn the_first_marker_decides_the_kind() {
    assert_eq!(function_kind(true, true, true), FunctionKind::Inline);
    assert_eq!(function_kind(false, true, true), FunctionKind::External);
    assert_eq!(function_kind(false, false, true), FunctionKind::Sequential);
    assert_eq!(function_kind(false, false, false), FunctionKind::BinaryTree);
}
