use emit::checks::{render_condition, AccessPath, Check, PathSegment, SubjectRoot};
use emit::lowered::{ElseArm, LoweredBlock, LoweredStatement, PlacePlan};
use emit::render::Renderer;
use emit::tree::{
    build_chain, build_tree, decision_is_exhaustive, tree_has_unguarded_terminal, ArmInfo, Decision,
    PatternBinding, SwitchKind, SwitchShape,
};
use emit::tree_emit::{
    bindings_are_hoistable, build_chain_plan, chain_last_is_catchall, group_chain_tests_by_condition,
    switch_branch_condition, ChainBranch, MatchSubject, WalkCtx, WalkRole, apply_leaf_terminator,
    capture_diverge, switch_postlude,
};
use emit::tree::ChainTest;

fn root() -> AccessPath {
    AccessPath { segments: Vec::new() }
}

fn arm(index: usize, checks: Vec<Check>) -> ArmInfo {
    ArmInfo { arm_index: index, root_assertion: None, checks, bindings: Vec::new(), has_guard: false }
}

fn tag(t: &str) -> Check {
    Check::EnumTag { path: root(), tag_constant: t.to_string() }
}

fn literal(l: &str) -> Check {
    Check::Literal { path: root(), go_literal: l.to_string() }
}

#[test]
fn enum_tag_arms_build_a_switch() {
    let tree = build_tree(vec![arm(0, vec![tag("ColorRed")]), arm(1, Vec::new())]);
    match &tree {
        Decision::Switch { kind, shape, branches, fallback, .. } => {
            assert!(matches!(kind, SwitchKind::EnumTag));
            assert!(*shape == SwitchShape::SingleArm);
            assert_eq!(branches.len(), 1);
            assert_eq!(branches[0].case_label, "ColorRed");
            assert!(matches!(branches[0].decision, Decision::Success { arm_index: 0, .. }));
            assert!(matches!(fallback.as_deref(), Some(Decision::Success { arm_index: 1, .. })));
        }
        _ => panic!("expected a switch"),
    }
    assert!(decision_is_exhaustive(&tree));
    assert!(tree_has_unguarded_terminal(&tree));
}

#[test]
fn boolean_literals_build_a_bool_switch() {
    let tree = build_tree(vec![arm(0, vec![literal("true")]), arm(1, vec![literal("false")])]);
    match &tree {
        Decision::Switch { kind, shape, fallback, .. } => {
            assert!(matches!(kind, SwitchKind::Value));
            assert!(*shape == SwitchShape::Bool);
            assert!(fallback.is_none());
        }
        _ => panic!("expected a switch"),
    }
}

#[test]
fn same_tag_arms_share_a_branch() {
    let tree = build_tree(vec![
        arm(0, vec![tag("A"), literal("1")]),
        arm(1, vec![tag("A")]),
        arm(2, vec![tag("B")]),
    ]);
    match &tree {
        Decision::Switch { shape, branches, fallback, .. } => {
            assert!(*shape == SwitchShape::Binary);
            assert_eq!(branches.len(), 2);
            assert_eq!(branches[0].case_label, "A");
            assert_eq!(branches[1].case_label, "B");
            assert!(fallback.is_none());
        }
        _ => panic!("expected a switch"),
    }
}

#[test]
fn slice_checks_build_a_chain() {
    let len_check = Check::SliceLenEq { path: root(), length: 2 };
    let tree = build_tree(vec![arm(0, vec![len_check]), arm(1, Vec::new())]);
    match &tree {
        Decision::Chain { tests, fallback } => {
            assert_eq!(tests.len(), 1);
            assert!(matches!(fallback.as_ref(), Decision::Success { arm_index: 1, .. }));
        }
        _ => panic!("expected a chain"),
    }
}

#[test]
fn first_unguarded_catchall_wins() {
    let tree = build_tree(vec![arm(3, Vec::new()), arm(4, vec![tag("A")])]);
    assert!(matches!(tree, Decision::Success { arm_index: 3, .. }));
    assert!(matches!(build_tree(Vec::new()), Decision::Unreachable));
}

#[test]
fn checks_render_as_go_conditions() {
    let subject = SubjectRoot::Var("x");
    assert_eq!(render_condition(&vec![tag("ColorRed")], &subject), "x.Tag == ColorRed");
    assert_eq!(tag("ColorRed").render_negated(&subject), "x.Tag != ColorRed");
    assert_eq!(literal("true").render(&subject), "x");
    assert_eq!(literal("true").render_negated(&subject), "!x");
    assert_eq!(literal("3").render(&subject), "x == 3");
    let len = Check::SliceLenGe { path: root(), min_length: 2 };
    assert_eq!(len.render(&subject), "len(x) >= 2");
    assert_eq!(len.render_negated(&subject), "len(x) < 2");
    let path = root().push(PathSegment::Field("Name".to_string())).push(PathSegment::Index(0));
    assert_eq!(path.render(&subject), "x.Name[0]");
    let deref = root().push(PathSegment::Deref);
    assert_eq!(deref.render(&subject), "*x");
    assert_eq!(deref.render_composable(&subject), "(*x)");
    let both = render_condition(&vec![tag("A"), literal("1")], &subject);
    assert_eq!(both, "x.Tag == A && x == 1");
}

#[test]
fn chain_branches_nest_as_else_ifs() {
    let branches = vec![
        ChainBranch { condition: "a".to_string(), body: LoweredBlock { statements: vec![LoweredStatement::RawGo("x()\n".to_string())] } },
        ChainBranch { condition: "b".to_string(), body: LoweredBlock { statements: vec![LoweredStatement::RawGo("y()\n".to_string())] } },
    ];
    let plan = build_chain_plan(branches, ElseArm::NoElse);
    let text = Renderer.render_setup(&vec![LoweredStatement::If(plan)]);
    assert_eq!(text, "if a {\nx()\n} else if b {\ny()\n}\n");
}

#[test]
fn consecutive_conditions_group() {
    let conditions = vec![Some("a".to_string()), Some("a".to_string()), None, Some("b".to_string())];
    let groups = group_chain_tests_by_condition(&conditions);
    assert_eq!(groups, vec![("a", vec![0, 1]), ("", vec![2]), ("b", vec![3])]);
}

#[test]
fn switch_branch_conditions_compare_the_tag_or_value() {
    assert_eq!(switch_branch_condition("x", &SwitchKind::EnumTag, &SwitchShape::Multi, "T1"), "x.Tag == T1");
    assert_eq!(switch_branch_condition("x", &SwitchKind::Value, &SwitchShape::Bool, "true"), "x");
    assert_eq!(switch_branch_condition("x", &SwitchKind::Value, &SwitchShape::Bool, "false"), "x == false");
    assert_eq!(switch_branch_condition("T{}", &SwitchKind::Value, &SwitchShape::Multi, "v"), "(T{}) == v");
}

#[test]
fn chain_ends_in_catchall_only_with_several_tests() {
    let unreachable = Decision::Unreachable;
    let one = vec![ChainTest { checks: Vec::new(), decision: Decision::Unreachable }];
    assert!(!chain_last_is_catchall(&one, &unreachable));
    let two = vec![
        ChainTest { checks: Vec::new(), decision: Decision::Unreachable },
        ChainTest { checks: Vec::new(), decision: Decision::Unreachable },
    ];
    assert!(chain_last_is_catchall(&two, &unreachable));
}

#[test]
fn bindings_hoist_only_when_they_agree() {
    let binding = |name: &str| PatternBinding {
        lisette_name: name.to_string(),
        go_name: Some(name.to_string()),
        path: AccessPath { segments: Vec::new() },
    };
    let test = |bindings: Vec<PatternBinding>| ChainTest {
        checks: Vec::new(),
        decision: Decision::Success { arm_index: 0, bindings },
    };
    let agreeing = vec![test(vec![binding("v")]), test(Vec::new()), test(vec![binding("v")])];
    assert!(bindings_are_hoistable(&agreeing, &[0, 1, 2]));
    assert!(!bindings_are_hoistable(&agreeing, &[0]));
    let differing = vec![test(vec![binding("v")]), test(vec![binding("w")])];
    assert!(!bindings_are_hoistable(&differing, &[0, 1]));
    let unbound = vec![test(Vec::new()), test(Vec::new())];
    assert!(!bindings_are_hoistable(&unbound, &[0, 1]));
}

#[test]
fn retry_loop_leaves_break_unless_they_diverge() {
    let place = PlacePlan::Statement;
    let ctx = WalkCtx::retry_loop(&place, Some("match1"));
    assert!(ctx.leaf_scope_explicit());
    assert!(ctx.nested().role == WalkRole::RetryLoopNested);
    let mut statements = Vec::new();
    let diverges = capture_diverge(vec![LoweredStatement::RawGo("f()\n".to_string())], &mut statements);
    assert!(!diverges);
    apply_leaf_terminator(&mut statements, &ctx, diverges);
    let text = Renderer.render_setup(&statements);
    assert_eq!(text, "f()\nbreak match1\n");
    let plain = WalkCtx::switch_case(&place);
    let mut untouched = Vec::new();
    apply_leaf_terminator(&mut untouched, &plain, false);
    assert!(untouched.is_empty());
    assert_eq!(switch_postlude(&PlacePlan::Return, false).len(), 1);
    assert!(switch_postlude(&PlacePlan::Return, true).is_empty());
}

#[test]
fn subjects_name_their_variables() {
    let var = MatchSubject::Var("s".to_string());
    assert_eq!(var.var(), "s");
    assert_eq!(var.names(), vec!["s".to_string()]);
    let elements = MatchSubject::Elements(vec!["a".to_string(), "b".to_string()]);
    assert_eq!(elements.names(), vec!["a".to_string(), "b".to_string()]);
}

#[test]
fn chains_stop_at_the_first_unguarded_catchall() {
    let tree = build_chain(vec![arm(0, vec![literal("1")]), arm(1, Vec::new()), arm(2, vec![literal("2")])]);
    match &tree {
        Decision::Chain { tests, fallback } => {
            assert_eq!(tests.len(), 1);
            assert!(matches!(tests[0].decision, Decision::Success { arm_index: 0, .. }));
            assert!(matches!(**fallback, Decision::Success { arm_index: 1, .. }));
        }
        _ => panic!("expected a chain"),
    }
    let all = build_chain(vec![arm(0, vec![literal("1")]), arm(1, vec![literal("2")])]);
    match &all {
        Decision::Chain { tests, fallback } => {
            assert_eq!(tests.len(), 2);
            assert!(matches!(**fallback, Decision::Unreachable));
        }
        _ => panic!("expected a chain"),
    }
}
