use emit::lowered::{ElseArm, IfPlan, LoweredBlock, LoweredStatement, PlacePlan};
use emit::placement::{
    and_operand, collapse_declared_temp, join_boolean_branches, negate_condition,
    rebind_trailing_temp, simple_assign, single_simple_assign_value, unreachable_panic_if_needed,
};
use emit::values::ValuePlan;

#[test]
fn boolean_branches_join_into_one_expression() {
    assert_eq!(join_boolean_branches("c", "true", "false"), Some("c".to_string()));
    assert_eq!(join_boolean_branches("c", "false", "true"), Some("!c".to_string()));
    assert_eq!(join_boolean_branches("a > b", "false", "true"), Some("!(a > b)".to_string()));
    assert_eq!(join_boolean_branches("c", "true", "true"), None);
    assert_eq!(join_boolean_branches("c", "false", "false"), None);
    assert_eq!(join_boolean_branches("c", "x", "false"), Some("c && x".to_string()));
    assert_eq!(join_boolean_branches("a || b", "x.ok", "false"), Some("(a || b) && (x.ok)".to_string()));
    assert_eq!(join_boolean_branches("c", "true", "y"), Some("c || y".to_string()));
    assert_eq!(join_boolean_branches("c", "false", "y"), Some("!c && y".to_string()));
    assert_eq!(join_boolean_branches("c", "y", "true"), Some("!c || y".to_string()));
    assert_eq!(join_boolean_branches("c", "x", "y"), None);
}

#[test]
fn operands_keep_bare_identifiers_bare() {
    assert_eq!(negate_condition("ok"), "!ok");
    assert_eq!(negate_condition("a == b"), "!(a == b)");
    assert_eq!(and_operand("ok"), "ok");
    assert_eq!(and_operand("f()"), "(f())");
}

#[test]
fn declared_temp_with_one_assignment_collapses() {
    let mut statements = vec![
        LoweredStatement::VarDecl { name: "t".to_string(), go_type: "int".to_string(), value: None },
        simple_assign("t", ValuePlan::opaque("5".to_string())),
    ];
    collapse_declared_temp(&mut statements, "t");
    assert_eq!(statements.len(), 1);
    match &statements[0] {
        LoweredStatement::TempBind { name, value } => {
            assert_eq!(name, "t");
            assert_eq!(value, "5");
        }
        _ => panic!("expected a short declaration"),
    }
}

#[test]
fn declared_temp_of_other_type_is_kept() {
    let mut statements = vec![
        LoweredStatement::VarDecl { name: "t".to_string(), go_type: "float64".to_string(), value: None },
        simple_assign("t", ValuePlan::opaque("5".to_string())),
    ];
    collapse_declared_temp(&mut statements, "t");
    assert_eq!(statements.len(), 2);
    let mut other_name = vec![
        LoweredStatement::VarDecl { name: "u".to_string(), go_type: "int".to_string(), value: None },
        simple_assign("t", ValuePlan::opaque("5".to_string())),
    ];
    collapse_declared_temp(&mut other_name, "t");
    assert_eq!(other_name.len(), 2);
}

#[test]
fn boolean_if_collapses_to_its_condition() {
    let plan = IfPlan {
        condition_setup: Vec::new(),
        condition: "x > 0".to_string(),
        then_body: LoweredBlock { statements: vec![simple_assign("b", ValuePlan::opaque("true".to_string()))] },
        else_arm: ElseArm::Else {
            body: LoweredBlock { statements: vec![simple_assign("b", ValuePlan::opaque("false".to_string()))] },
            inline: false,
        },
    };
    let mut statements = vec![
        LoweredStatement::VarDecl { name: "b".to_string(), go_type: "bool".to_string(), value: None },
        LoweredStatement::If(plan),
    ];
    collapse_declared_temp(&mut statements, "b");
    assert_eq!(statements.len(), 1);
    match &statements[0] {
        LoweredStatement::TempBind { value, .. } => assert_eq!(value, "x > 0"),
        _ => panic!("expected a short declaration"),
    }
}

#[test]
fn single_assignment_value_is_read() {
    let body = LoweredBlock { statements: vec![simple_assign("x", ValuePlan::opaque("1".to_string()))] };
    assert_eq!(single_simple_assign_value(&body, "x"), Some("1".to_string()));
    assert_eq!(single_simple_assign_value(&body, "y"), None);
}

#[test]
fn trailing_temp_is_rebound() {
    let mut statements = vec![
        LoweredStatement::RawGo("a()\n".to_string()),
        LoweredStatement::TempBind { name: "tmp".to_string(), value: "f()".to_string() },
    ];
    assert!(rebind_trailing_temp(&mut statements, "x", "tmp"));
    assert_eq!(statements[1].bound_name(), Some("x"));
    assert!(!rebind_trailing_temp(&mut statements, "y", "tmp"));
    let mut empty: Vec<LoweredStatement> = Vec::new();
    assert!(!rebind_trailing_temp(&mut empty, "x", "tmp"));
}

#[test]
fn only_non_exhaustive_returns_get_a_tail_panic() {
    assert!(matches!(
        unreachable_panic_if_needed(&PlacePlan::Return, false),
        Some(LoweredStatement::UnreachablePanic)
    ));
    assert!(unreachable_panic_if_needed(&PlacePlan::Return, true).is_none());
    assert!(unreachable_panic_if_needed(&PlacePlan::Statement, false).is_none());
}
