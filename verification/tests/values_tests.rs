use emit::lowered::LoweredStatement;
use emit::values::{
    binary_constant, render_unary, unary_constant, CaptureBoundary, ConstantKind, EvaluationEffect,
    GoExpression, LaterStages, OperandForm, SequencedValues, Stability, ValuePlan,
    assignment_requires_target_capture, stage_pins,
};

#[test]
fn call_renders_callee_and_arguments() {
    let call = GoExpression::call(
        GoExpression::opaque("f".to_string()),
        vec![GoExpression::literal("1".to_string()), GoExpression::name("x".to_string())],
    );
    assert_eq!(call.rendered(), "f(1, x)");
    assert!(call.contains_deferred_evaluation());
    assert!(call.syntax_form() == OperandForm::Call);
    let empty = GoExpression::call(GoExpression::opaque("g".to_string()), Vec::new());
    assert_eq!(empty.rendered(), "g()");
}

#[test]
fn binary_constant_kinds_follow_go() {
    let sum = GoExpression::binary(
        GoExpression::constant("1".to_string(), ConstantKind::Int),
        "+",
        GoExpression::constant("2.0".to_string(), ConstantKind::Float),
    );
    assert_eq!(sum.rendered(), "1 + 2.0");
    assert!(sum.constant_kind() == Some(ConstantKind::Float));
    assert!(binary_constant(Some(ConstantKind::String), "+", Some(ConstantKind::String)) == Some(ConstantKind::String));
    assert!(binary_constant(Some(ConstantKind::String), "-", Some(ConstantKind::String)).is_none());
    assert!(binary_constant(Some(ConstantKind::Int), "<", Some(ConstantKind::Int)) == Some(ConstantKind::Bool));
    assert!(binary_constant(Some(ConstantKind::Float), "<<", Some(ConstantKind::Int)) == Some(ConstantKind::Float));
    assert!(binary_constant(Some(ConstantKind::Rune), "&^", Some(ConstantKind::Int)) == Some(ConstantKind::Rune));
    assert!(binary_constant(None, "+", Some(ConstantKind::Int)).is_none());
    assert!(binary_constant(Some(ConstantKind::Int), "??", Some(ConstantKind::Int)).is_none());
    assert!(unary_constant("!", Some(ConstantKind::Int)).is_none());
    assert!(unary_constant("!", Some(ConstantKind::Bool)) == Some(ConstantKind::Bool));
    assert!(unary_constant("^", Some(ConstantKind::Complex)) == Some(ConstantKind::Complex));
}

#[test]
fn constant_kind_join_takes_the_wider_numeric_kind() {
    assert!(ConstantKind::Int.join(ConstantKind::Complex) == Some(ConstantKind::Complex));
    assert!(ConstantKind::Float.join(ConstantKind::Rune) == Some(ConstantKind::Float));
    assert!(ConstantKind::Int.join(ConstantKind::Bool).is_none());
    assert!(ConstantKind::Int.join(ConstantKind::Rune) == ConstantKind::Rune.join(ConstantKind::Int));
}

#[test]
fn negating_a_negative_is_parenthesized() {
    assert_eq!(render_unary("-", "-1"), "-(-1)");
    assert_eq!(render_unary("-", "x"), "-x");
    assert_eq!(render_unary("!", "-x"), "!-x");
    let negated = GoExpression::unary("-", GoExpression::constant("-2".to_string(), ConstantKind::Int));
    assert_eq!(negated.rendered(), "-(-2)");
    assert!(negated.constant_kind() == Some(ConstantKind::Int));
}

#[test]
fn compact_binary_has_no_spaces() {
    let e = GoExpression::compact_binary(
        GoExpression::name("a".to_string()),
        "&^",
        GoExpression::name("b".to_string()),
    );
    assert_eq!(e.rendered(), "a&^b");
}

#[test]
fn selectors_indexes_slices_and_receives_render() {
    let s = GoExpression::name("s".to_string());
    assert_eq!(GoExpression::selector(GoExpression::name("p".to_string()), "X".to_string()).rendered(), "p.X");
    let i = GoExpression::index(GoExpression::name("a".to_string()), GoExpression::literal("0".to_string()));
    assert_eq!(i.rendered(), "a[0]");
    let one = GoExpression::literal("1".to_string());
    let n = GoExpression::name("n".to_string());
    assert_eq!(GoExpression::slice(s, Some(&one), None, None).rendered(), "s[1:]");
    let s = GoExpression::name("s".to_string());
    assert_eq!(GoExpression::slice(s, Some(&one), Some(&n), Some(&n)).rendered(), "s[1:n:n]");
    let r = GoExpression::receive(GoExpression::name("ch".to_string()));
    assert_eq!(r.rendered(), "<-ch");
    assert!(r.contains_deferred_evaluation());
}

#[test]
fn conversions_parenthesize_composite_types() {
    let plain = GoExpression::conversion("int64".to_string(), GoExpression::name("x".to_string()));
    assert_eq!(plain.rendered(), "int64(x)");
    let qualified = GoExpression::conversion("time.Duration".to_string(), GoExpression::name("x".to_string()));
    assert_eq!(qualified.rendered(), "time.Duration(x)");
    let composite = GoExpression::conversion("[]byte".to_string(), GoExpression::name("s".to_string()));
    assert_eq!(composite.rendered(), "([]byte)(s)");
}

#[test]
fn parenthesizing_a_call_makes_it_observable() {
    let plan = ValuePlan::plain_call(
        Vec::new(),
        GoExpression::opaque_with_deferred_evaluation("f()".to_string(), true),
        EvaluationEffect::PureCall,
    );
    let wrapped = plan.parenthesized();
    assert_eq!(wrapped.rendered(), "(f())");
    assert!(wrapped.evaluation.form == OperandForm::Other);
    assert!(wrapped.evaluation.stability == Stability::Observable);
    let name = ValuePlan::captured(Vec::new(), "t".to_string()).parenthesized();
    assert!(name.evaluation.stability == Stability::Fixed);
}

#[test]
fn effects_combine_to_the_strongest() {
    assert!(EvaluationEffect::PureCall.combine(EvaluationEffect::Pure) == EvaluationEffect::PureCall);
    assert!(EvaluationEffect::Pure.combine(EvaluationEffect::EffectfulCall) == EvaluationEffect::EffectfulCall);
    assert!(EvaluationEffect::Pure.combine(EvaluationEffect::Pure) == EvaluationEffect::Pure);
    assert!(EvaluationEffect::PureCall.has_call());
    assert!(!EvaluationEffect::PureCall.has_effectful_call());
}

#[test]
fn capture_boundaries_decide_value_capture() {
    assert!(CaptureBoundary::default() == CaptureBoundary::SiblingSequence);
    assert!(CaptureBoundary::DeferSite.requires_value_capture(Stability::Observable));
    assert!(CaptureBoundary::LoopLifetime.requires_value_capture(Stability::StableAcrossCalls));
    assert!(!CaptureBoundary::SiblingSequence.requires_value_capture(Stability::Observable));
    assert!(!CaptureBoundary::TaskSite.requires_value_capture(Stability::Fixed));
    assert!(!CaptureBoundary::DirectDelayedCall.requires_value_capture(Stability::Observable));
}

#[test]
fn identifier_expressions_keep_stability_only_as_bare_names() {
    let name = ValuePlan::from_identifier_expression(GoExpression::name("x".to_string()), Stability::Fixed);
    assert!(name.evaluation.stability == Stability::Fixed);
    let field = ValuePlan::from_identifier_expression(GoExpression::opaque("x.f".to_string()), Stability::Fixed);
    assert!(field.evaluation.stability == Stability::StableAcrossCalls);
    let observed = ValuePlan::from_identifier_expression(GoExpression::opaque("x.f".to_string()), Stability::Observable);
    assert!(observed.evaluation.stability == Stability::Observable);
    let call = ValuePlan::from_identifier_expression(
        GoExpression::call(GoExpression::opaque("f".to_string()), Vec::new()),
        Stability::Fixed,
    );
    assert!(call.evaluation.effect == EvaluationEffect::PureCall);
}

#[test]
fn later_setup_pins_an_earlier_observable_value() {
    let stages = vec![
        ValuePlan::computed(Vec::new(), GoExpression::opaque("a.x".to_string()), EvaluationEffect::Pure),
        ValuePlan::plain_call(
            vec![LoweredStatement::RawGo("prep()\n".to_string())],
            GoExpression::opaque("g()".to_string()),
            EvaluationEffect::EffectfulCall,
        ),
    ];
    assert_eq!(stage_pins(&stages), vec![true, false]);
    let fixed = vec![
        ValuePlan::captured(Vec::new(), "t".to_string()),
        ValuePlan::plain_call(
            vec![LoweredStatement::RawGo("prep()\n".to_string())],
            GoExpression::opaque("g()".to_string()),
            EvaluationEffect::EffectfulCall,
        ),
    ];
    assert_eq!(stage_pins(&fixed), vec![false, false]);
    let mut later = LaterStages::default();
    let effectful = ValuePlan::plain_call(Vec::new(), GoExpression::opaque("h()".to_string()), EvaluationEffect::EffectfulCall);
    assert!(!later.prepend(&effectful));
    assert!(later.has_effectful_call);
    let observable = ValuePlan::opaque("v".to_string());
    assert!(later.prepend(&observable));
    assert!(later.has_pin);
}

#[test]
fn assignment_targets_are_captured_before_setup_or_effects() {
    let with_setup = ValuePlan::computed(
        vec![LoweredStatement::RawGo("x\n".to_string())],
        GoExpression::opaque("v".to_string()),
        EvaluationEffect::Pure,
    );
    assert!(assignment_requires_target_capture(Some(&with_setup)));
    let effectful = ValuePlan::plain_call(Vec::new(), GoExpression::opaque("f()".to_string()), EvaluationEffect::EffectfulCall);
    assert!(assignment_requires_target_capture(Some(&effectful)));
    assert!(!assignment_requires_target_capture(Some(&ValuePlan::opaque("v".to_string()))));
    assert!(!assignment_requires_target_capture(None));
}

#[test]
fn a_value_rests_in_the_temp_its_setup_bound() {
    let plan = ValuePlan::captured(
        vec![LoweredStatement::TempBind { name: "tmp".to_string(), value: "f()".to_string() }],
        "tmp".to_string(),
    );
    assert!(plan.rests_in_own_temp("tmp"));
    assert!(!plan.rests_in_own_temp("other"));
    assert!(!plan.rests_in_own_temp("a.b"));
    assert!(plan.rests_in_fixed_name());
    assert!(!ValuePlan::opaque("x".to_string()).rests_in_fixed_name());
}

#[test]
fn map_rendered_rebuilds_the_expression_and_keeps_the_facts() {
    let plan = ValuePlan::plain_call(Vec::new(), GoExpression::opaque("f()".to_string()), EvaluationEffect::PureCall);
    let mapped = plan.map_rendered_as_computed(|setup, text, deferred| {
        (setup, GoExpression::opaque_with_deferred_evaluation(format!("wrap({})", text), deferred))
    });
    assert_eq!(mapped.rendered(), "wrap(f())");
    assert!(mapped.evaluation.form == OperandForm::Other);
    assert!(mapped.evaluation.effect == EvaluationEffect::PureCall);
}

#[test]
fn sequenced_values_render_in_order() {
    let sequenced = SequencedValues {
        setup: Vec::new(),
        values: vec![GoExpression::name("a".to_string()), GoExpression::receive(GoExpression::name("c".to_string()))],
        effect: EvaluationEffect::Pure,
    };
    assert!(sequenced.contains_deferred_evaluation());
    let (setup, rendered) = sequenced.into_rendered();
    assert!(setup.is_empty());
    assert_eq!(rendered, vec!["a".to_string(), "<-c".to_string()]);
}

#[test]
fn conversion_and_unary_plans_become_observable() {
    let plan = ValuePlan::captured(Vec::new(), "x".to_string()).conversion("int".to_string());
    assert_eq!(plan.rendered(), "int(x)");
    assert!(plan.evaluation.stability == Stability::Observable);
    let plan = ValuePlan::captured(Vec::new(), "x".to_string()).unary("-");
    assert_eq!(plan.rendered(), "-x");
    assert!(plan.evaluation.stability == Stability::Observable);
    let mut pinned = ValuePlan::plain_call(Vec::new(), GoExpression::opaque("f()".to_string()), EvaluationEffect::EffectfulCall);
    pinned.replace_with_pinned_name("p".to_string());
    assert_eq!(pinned.rendered(), "p");
    assert!(pinned.evaluation.effect == EvaluationEffect::Pure);
    let constructed = ValuePlan::opaque("T{}".to_string()).with_pure_constructor_evaluation();
    assert!(constructed.evaluation.effect == EvaluationEffect::PureCall);
}
