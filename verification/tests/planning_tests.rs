use emit::binary_ops::{binary_plan, imaginary_product_plan, numeric_binary_plan};
use emit::checks::{AccessPath, Check, SubjectRoot};
use emit::flat_cases::collect_flat_cases;
use emit::format_strings::{emit_format_string, format_string_concatenates, FormatPart, ValueKind};
use emit::imports::ImportBuilder;
use emit::fused::{
    fused_result_plan, fused_result_shape, selective_partial_plan, CommaOkSlot, FusedResultShape, NilGuard,
    PartialVariant, ResultArm,
};
use emit::lowered::{ElseArm, LoweredBlock, LoweredStatement};
use emit::operands::{dot_access_plan, operand_leaf_plan, DotMember, DotReceiver, OperandLeaf};
use emit::packages::{PackageRequirements, PackageUse};
use emit::slicing::{range_slice_plan, SliceTemps};
use emit::staging::sequence_values;
use emit::struct_calls::{struct_call_plan, StructSpread};
use emit::access::StructCallField;
use emit::top_items::{emit_top_item, TestFunction, TopItem};
use emit::tree::{group_switch_branches, ArmInfo, Decision, SwitchBranch, SwitchKind, SwitchShape};
use emit::values::{
    CaptureBoundary, EvaluationEffect, EvaluationFacts, GoExpression, OperandForm, SequencedValues,
    Stability, ValuePlan,
};

fn plan(rendered: &str, stability: Stability, effect: EvaluationEffect) -> ValuePlan {
    ValuePlan {
        setup: Vec::new(),
        expression: GoExpression::opaque(rendered.to_string()),
        evaluation: EvaluationFacts { form: OperandForm::Other, stability, effect },
    }
}

fn name_plan(rendered: &str) -> ValuePlan {
    ValuePlan {
        setup: Vec::new(),
        expression: GoExpression::name(rendered.to_string()),
        evaluation: EvaluationFacts {
            form: OperandForm::Name,
            stability: Stability::Fixed,
            effect: EvaluationEffect::Pure,
        },
    }
}

fn names(list: &[&str]) -> Vec<String> {
    list.iter().map(|s| s.to_string()).collect()
}

fn temp_bind(statement: &LoweredStatement) -> (String, String) {
    match statement {
        LoweredStatement::TempBind { name, value } => (name.clone(), value.clone()),
        _ => panic!("expected a temporary binding"),
    }
}

fn raw(statement: &LoweredStatement) -> String {
    match statement {
        LoweredStatement::RawGo(text) => text.clone(),
        _ => panic!("expected raw Go"),
    }
}

fn has(requirements: &PackageRequirements, path: &str) -> bool {
    requirements.iter().iter().any(|u| u.package().path() == path)
}

#[test]
fn quiet_siblings_stay_inline() {
    let stages = vec![name_plan("a"), plan("f(x)", Stability::Observable, EvaluationEffect::PureCall)];
    let sequenced = sequence_values(stages, CaptureBoundary::SiblingSequence, &Vec::new());
    assert!(sequenced.setup.is_empty());
    assert_eq!(sequenced.values[0].rendered, "a");
    assert_eq!(sequenced.values[1].rendered, "f(x)");
    assert!(sequenced.effect == EvaluationEffect::PureCall);
}

#[test]
fn an_effectful_sibling_pins_an_earlier_observable_value() {
    let stages = vec![
        plan("x.count", Stability::Observable, EvaluationEffect::Pure),
        plan("bump()", Stability::Observable, EvaluationEffect::EffectfulCall),
    ];
    let sequenced = sequence_values(stages, CaptureBoundary::SiblingSequence, &names(&["left", "left_1"]));
    assert_eq!(sequenced.setup.len(), 1);
    assert_eq!(temp_bind(&sequenced.setup[0]), ("left".to_string(), "x.count".to_string()));
    assert_eq!(sequenced.values[0].rendered, "left");
    assert_eq!(sequenced.values[1].rendered, "bump()");
    assert!(sequenced.effect == EvaluationEffect::EffectfulCall);
}

#[test]
fn concatenation_needs_only_string_values() {
    assert!(format_string_concatenates(&vec![
        FormatPart::Text("a".to_string()),
        FormatPart::Value { kind: ValueKind::String },
    ]));
    assert!(!format_string_concatenates(&vec![FormatPart::Text("a".to_string())]));
    assert!(!format_string_concatenates(&vec![
        FormatPart::Value { kind: ValueKind::String },
        FormatPart::Value { kind: ValueKind::Integer },
    ]));
}

#[test]
fn a_lone_string_value_is_its_stage() {
    let mut requirements = PackageRequirements::default();
    let r = emit_format_string(
        &vec![FormatPart::Value { kind: ValueKind::String }],
        vec![name_plan("greeting")],
        &Vec::new(),
        &mut requirements,
    );
    assert_eq!(r.expression.rendered, "greeting");
    assert!(r.evaluation.form == OperandForm::Name);
    assert!(requirements.iter().is_empty());
}

#[test]
fn string_values_concatenate_without_fmt() {
    let mut requirements = PackageRequirements::default();
    let r = emit_format_string(
        &vec![FormatPart::Text("Hi ".to_string()), FormatPart::Value { kind: ValueKind::String }],
        vec![name_plan("name")],
        &Vec::new(),
        &mut requirements,
    );
    assert_eq!(r.expression.rendered, "\"Hi \" + name");
    assert!(requirements.iter().is_empty());
}

#[test]
fn other_values_go_through_sprintf_and_need_fmt() {
    let mut requirements = PackageRequirements::default();
    let r = emit_format_string(
        &vec![FormatPart::Text("n=".to_string()), FormatPart::Value { kind: ValueKind::Integer }],
        vec![name_plan("n")],
        &Vec::new(),
        &mut requirements,
    );
    assert_eq!(r.expression.rendered, "fmt.Sprintf(\"n=%d\", n)");
    assert!(has(&requirements, "fmt"));
}

#[test]
fn ordinary_binary_operators_sequence_their_operands() {
    let r = binary_plan(name_plan("a"), "+", name_plan("b"), false, &Vec::new());
    assert_eq!(r.expression.rendered, "a + b");
    assert!(r.setup.is_empty());
}

#[test]
fn short_circuit_guards_right_setup_in_a_function_literal() {
    let mut right = name_plan("ok");
    right.setup.push(LoweredStatement::TempBind { name: "ok".to_string(), value: "check()".to_string() });
    let r = binary_plan(name_plan("ready"), "&&", right, true, &Vec::new());
    assert_eq!(r.expression.rendered, "ready && func() bool {\nok := check()\nreturn ok\n}()");
    assert!(r.setup.is_empty());
    assert!(r.expression.contains_deferred_evaluation);
}

#[test]
fn numeric_operands_are_converted() {
    let r = numeric_binary_plan(name_plan("a"), "*", name_plan("b"), Some("float64".to_string()), None, &Vec::new());
    assert_eq!(r.expression.rendered, "float64(a) * b");
}

#[test]
fn imaginary_products_build_a_complex() {
    let r = imaginary_product_plan(name_plan("x"), "2");
    assert_eq!(r.expression.rendered, "complex(0, x*2)");
}

fn slice_temps() -> SliceTemps {
    SliceTemps {
        base: "base".to_string(),
        length: "len_1".to_string(),
        start: "start".to_string(),
        end: "end".to_string(),
    }
}

fn sequenced(values: Vec<GoExpression>) -> SequencedValues {
    SequencedValues { setup: Vec::new(), values, effect: EvaluationEffect::Pure }
}

#[test]
fn inclusive_ranges_slice_one_past_the_end() {
    let s = sequenced(vec![GoExpression::name("xs".to_string()), GoExpression::literal("1".to_string()), GoExpression::literal("3".to_string())]);
    let r = range_slice_plan(s, true, true, true, false, false, false, &slice_temps());
    assert_eq!(r.expression.rendered, "xs[1:3+1]");
}

#[test]
fn slices_of_slices_bound_the_capacity() {
    let s = sequenced(vec![GoExpression::name("xs".to_string()), GoExpression::literal("2".to_string())]);
    let r = range_slice_plan(s, false, true, false, true, false, false, &slice_temps());
    assert_eq!(r.expression.rendered, "xs[:2:2]");
    assert!(r.setup.is_empty());
}

#[test]
fn an_open_end_reads_the_length_once() {
    let s = sequenced(vec![GoExpression::name("xs".to_string()), GoExpression::literal("1".to_string())]);
    let r = range_slice_plan(s, true, false, false, true, false, false, &slice_temps());
    assert_eq!(r.expression.rendered, "xs[1:len_1:len_1]");
    assert_eq!(temp_bind(&r.setup[0]), ("len_1".to_string(), "len(xs)".to_string()));
}

#[test]
fn a_deferred_end_is_bound_after_pinning_the_base() {
    let s = sequenced(vec![
        GoExpression::name("xs".to_string()),
        GoExpression::opaque_with_deferred_evaluation("n()".to_string(), true),
    ]);
    let r = range_slice_plan(s, false, true, false, true, true, false, &slice_temps());
    assert_eq!(r.expression.rendered, "base[:end:end]");
    assert_eq!(temp_bind(&r.setup[0]), ("base".to_string(), "xs".to_string()));
    assert_eq!(temp_bind(&r.setup[1]), ("end".to_string(), "n()".to_string()));
}

#[test]
fn top_items_carry_their_doc() {
    let mut requirements = PackageRequirements::default();
    let item = TopItem::Definition { doc: Some("A point.".to_string()), code: "type Point struct{}".to_string() };
    assert_eq!(emit_top_item(&item, &mut requirements), "// A point.\ntype Point struct{}");
    let unused = TopItem::Function { doc: None, unused: true, code: "func f() {}".to_string(), test: None };
    assert_eq!(emit_top_item(&unused, &mut requirements), "");
    let constant = TopItem::Const { doc: None, has_value: false, code: "const X = 1".to_string() };
    assert_eq!(emit_top_item(&constant, &mut requirements), "");
}

#[test]
fn tests_get_a_testing_wrapper() {
    let mut requirements = PackageRequirements::default();
    let item = TopItem::Function {
        doc: None,
        unused: false,
        code: "func checks(t testkit.T) {}".to_string(),
        test: Some(TestFunction {
            test_name: "TestChecks".to_string(),
            callee: "checks".to_string(),
            file_id: 3,
            byte_offset: 10,
            byte_length: 5,
            returns_result: false,
        }),
    };
    let text = emit_top_item(&item, &mut requirements);
    assert_eq!(
        text,
        "func checks(t testkit.T) {}\n\nfunc TestChecks(_lisTest_t *testing.T) {\n\tdefer testkit.Recover(_lisTest_t, 3, 10, 15)\n\tchecks(testkit.New(_lisTest_t))\n}"
    );
    assert!(has(&requirements, "testing"));
}

#[test]
fn unit_and_verbatim_leaves() {
    let unit = operand_leaf_plan(OperandLeaf::Unit);
    assert_eq!(unit.expression.rendered, "struct{}{}");
    assert!(unit.expression.composite_literal);
    let raw_go = operand_leaf_plan(OperandLeaf::Verbatim("os.Args".to_string()));
    assert_eq!(raw_go.expression.rendered, "os.Args");
}

#[test]
fn member_access_selects_a_field() {
    let member = DotMember {
        pre_receiver: None,
        tuple_member: None,
        newtype_conversion: false,
        field: "Name".to_string(),
        nullable: None,
        with_type_args: None,
    };
    let r = dot_access_plan(DotReceiver::Value(name_plan("user")), member);
    assert_eq!(r.expression.rendered, "user.Name");
    let package = DotMember {
        pre_receiver: None,
        tuple_member: None,
        newtype_conversion: false,
        field: "Println".to_string(),
        nullable: None,
        with_type_args: None,
    };
    let r = dot_access_plan(DotReceiver::Package("fmt".to_string()), package);
    assert_eq!(r.expression.rendered, "fmt.Println");
}

fn field(name: &str, value: &str, observable: bool) -> StructCallField {
    StructCallField { name: name.to_string(), value: value.to_string(), has_observable_evaluation: observable }
}

#[test]
fn variants_put_the_tag_first() {
    let r = struct_call_plan(
        "Shape",
        Some("ShapeCircle".to_string()),
        vec![field("radius", "r", false)],
        Vec::new(),
        EvaluationEffect::Pure,
        false,
        StructSpread::Plain,
        false,
        &Vec::new(),
        &"copy".to_string(),
    );
    assert_eq!(r.expression.rendered, "Shape{\nTag: ShapeCircle,\nradius: r,\n}");
}

#[test]
fn updates_copy_the_base_and_pin_observable_fields() {
    let r = struct_call_plan(
        "Point",
        None,
        vec![field("X", "next()", true)],
        Vec::new(),
        EvaluationEffect::EffectfulCall,
        false,
        StructSpread::Update { base: name_plan("p") },
        false,
        &names(&["field"]),
        &"copy".to_string(),
    );
    assert_eq!(r.expression.rendered, "copy");
    assert_eq!(temp_bind(&r.setup[0]), ("field".to_string(), "next()".to_string()));
    assert_eq!(temp_bind(&r.setup[1]), ("copy".to_string(), "p".to_string()));
    assert_eq!(raw(&r.setup[2]), "copy.X = field\n");
}

fn block(text: &str) -> LoweredBlock {
    LoweredBlock { statements: vec![LoweredStatement::RawGo(text.to_string())] }
}

#[test]
fn a_nil_status_is_replaced_before_the_failure_arm() {
    let mut requirements = PackageRequirements::default();
    let statements = fused_result_plan(
        Vec::new(),
        "err == nil".to_string(),
        "err != nil".to_string(),
        "err",
        Some(block("use(v)\n")),
        block("log(err)\n"),
        true,
        true,
        &mut requirements,
    );
    assert_eq!(statements.len(), 1);
    match &statements[0] {
        LoweredStatement::If(plan) => {
            assert_eq!(plan.condition, "err == nil");
            match &plan.else_arm {
                ElseArm::Else { body, .. } => {
                    assert_eq!(raw(&body.statements[0]), "if err == nil {\nerr = errors.New(\"unexpected nil\")\n}\n");
                }
                _ => panic!("expected an else arm"),
            }
        }
        _ => panic!("expected an if"),
    }
    assert!(has(&requirements, "errors"));
}

#[test]
fn selective_partial_matches_bind_and_test_the_outcome() {
    let mut requirements = PackageRequirements::default();
    let statements = selective_partial_plan(
        Vec::new(),
        "os.Open(p)",
        PartialVariant::Success,
        None,
        Some("ret".to_string()),
        "err",
        block("use(ret)\n"),
        true,
        LoweredBlock { statements: Vec::new() },
        &mut requirements,
    );
    assert_eq!(raw(&statements[0]), "ret, err := os.Open(p)\n");
    match &statements[1] {
        LoweredStatement::If(plan) => {
            assert_eq!(plan.condition, "err == nil");
            assert!(matches!(plan.else_arm, ElseArm::NoElse));
        }
        _ => panic!("expected an if"),
    }
    let guard = NilGuard { is_interface: true, non_nil: "ret != nil".to_string(), is_nil: "ret == nil".to_string() };
    let mut requirements = PackageRequirements::default();
    let statements = selective_partial_plan(
        Vec::new(),
        "load()",
        PartialVariant::Failure,
        Some(guard),
        Some("ret".to_string()),
        "err",
        block("fail()\n"),
        false,
        block("ok()\n"),
        &mut requirements,
    );
    match &statements[1] {
        LoweredStatement::If(plan) => assert_eq!(plan.condition, "err != nil && ret == nil"),
        _ => panic!("expected an if"),
    }
    assert!(!requirements.iter().is_empty());
}

#[test]
fn guarded_arms_flatten_into_conditional_cases() {
    let tree = Decision::Guard {
        arm_index: 0,
        bindings: Vec::new(),
        success: Box::new(Decision::Success { arm_index: 0, bindings: Vec::new() }),
        failure: Box::new(Decision::Success { arm_index: 1, bindings: Vec::new() }),
    };
    let guards = vec![Some("x > 0".to_string())];
    let cases = collect_flat_cases(&tree, &SubjectRoot::Var("x"), &guards, Vec::new(), true).unwrap();
    assert_eq!(cases.len(), 2);
    assert_eq!(cases[0].conditions, vec!["x > 0".to_string()]);
    assert!(cases[1].conditions.is_empty());
    let none: Vec<Option<String>> = vec![None];
    assert!(collect_flat_cases(&tree, &SubjectRoot::Var("x"), &none, Vec::new(), true).is_none());
}

#[test]
fn switch_branches_flatten_under_their_label() {
    let tree = Decision::Switch {
        path: AccessPath { segments: Vec::new() },
        kind: SwitchKind::EnumTag,
        shape: SwitchShape::Multi,
        branches: vec![
            SwitchBranch { case_label: "ColorRed".to_string(), decision: Decision::Success { arm_index: 0, bindings: Vec::new() } },
            SwitchBranch { case_label: "ColorBlue".to_string(), decision: Decision::Success { arm_index: 1, bindings: Vec::new() } },
        ],
        fallback: None,
    };
    let cases = collect_flat_cases(&tree, &SubjectRoot::Var("c"), &Vec::new(), Vec::new(), true).unwrap();
    assert_eq!(cases.len(), 2);
    assert_eq!(cases[0].conditions, vec!["c.Tag == ColorRed".to_string()]);
    assert!(cases[1].conditions.is_empty());
}

#[test]
fn guarded_arms_group_under_their_tag() {
    let tagged = |index: usize, t: &str, guard: bool| ArmInfo {
        arm_index: index,
        root_assertion: None,
        checks: vec![Check::EnumTag { path: AccessPath { segments: Vec::new() }, tag_constant: t.to_string() }],
        bindings: Vec::new(),
        has_guard: guard,
    };
    let catchall = ArmInfo { arm_index: 2, root_assertion: None, checks: Vec::new(), bindings: Vec::new(), has_guard: false };
    let grouped = group_switch_branches(&vec![tagged(0, "A", true), catchall, tagged(1, "A", false)], SwitchKind::EnumTag);
    assert_eq!(grouped.branches.len(), 1);
    assert_eq!(grouped.branches[0].0, "A");
    assert_eq!(grouped.branches[0].1.len(), 2);
    assert!(grouped.branches[0].1[0].has_guard);
    assert!(grouped.branches[0].1[1].checks.is_empty());
    assert_eq!(grouped.fallback.len(), 1);
    assert_eq!(grouped.fallback[0].arm_index, 2);
}

#[test]
fn package_requirements_start_empty() {
    let requirements = PackageRequirements::default();
    assert!(requirements.iter().is_empty());
    let _ = PackageUse::new("fmt".to_string(), "fmt".to_string());
}

#[test]
fn imports_are_kept_once_and_sorted() {
    let mut builder = ImportBuilder::new(Vec::new(), Vec::new());
    builder.require_package_use("strings", "strings");
    builder.require_package_use("fmt", "fmt");
    builder.require_package_use("fmt", "fmt");
    builder.require_package_use("example.com/a/fmt", "fmt");
    let (imports, collisions) = builder.build();
    let listed: Vec<(String, String)> = imports.iter().map(|i| (i.path.clone(), i.alias.clone())).collect();
    assert_eq!(
        listed,
        vec![
            ("example.com/a/fmt".to_string(), "fmt".to_string()),
            ("fmt".to_string(), "fmt".to_string()),
            ("strings".to_string(), "strings".to_string()),
        ]
    );
    assert_eq!(collisions.len(), 1);
    assert_eq!(collisions[0].0, "fmt");
    assert_eq!(collisions[0].1, vec!["example.com/a/fmt".to_string(), "fmt".to_string()]);
}

#[test]
fn a_second_qualifier_for_a_path_is_an_extra_import() {
    let mut builder = ImportBuilder::new(Vec::new(), Vec::new());
    builder.require_package_use("math/rand", "rand");
    builder.require_package_use("math/rand", "mrand");
    let (imports, _) = builder.build();
    assert_eq!(imports.len(), 2);
    assert_eq!(imports[0].alias, "mrand");
    assert_eq!(imports[1].alias, "rand");
}

#[test]
fn package_ids_take_their_go_import_name() {
    let names = vec![("go:github.com/x/yaml.v3".to_string(), "yaml".to_string())];
    let mut builder = ImportBuilder::new(names, Vec::new());
    builder.extend_with_packages(&vec!["github.com/x/yaml.v3".to_string()]);
    let (imports, collisions) = builder.build();
    assert_eq!(imports.len(), 1);
    assert_eq!(imports[0].alias, "yaml");
    assert!(collisions.is_empty());
}

fn result_arm(catch_all: bool, payload: Option<&str>, body_identifier: Option<&str>, diverges: bool) -> ResultArm {
    ResultArm {
        is_catch_all: catch_all,
        simple_payload: payload.map(|p| p.to_string()),
        payload_name: payload.map(|p| p.to_string()),
        body_is_noop: false,
        body_identifier: body_identifier.map(|b| b.to_string()),
        diverges,
    }
}

#[test]
fn destinations_fuse_only_when_the_payload_flows_through() {
    let ok = result_arm(false, Some("v"), Some("v"), false);
    let err = result_arm(false, Some("e"), None, true);
    match fused_result_shape(&ok, &err, false, true, Some("x"), false) {
        FusedResultShape::Fused { slot: CommaOkSlot::Named(n), .. } => assert_eq!(n, "x"),
        _ => panic!("expected a fused shape"),
    }
    let returning = result_arm(false, Some("e"), None, false);
    assert!(matches!(fused_result_shape(&ok, &returning, false, true, Some("x"), false), FusedResultShape::Declined));
}

#[test]
fn unread_outcomes_keep_only_the_call() {
    let mut ok = result_arm(true, None, None, false);
    ok.body_is_noop = true;
    let mut err = result_arm(true, None, None, false);
    err.body_is_noop = true;
    assert!(matches!(fused_result_shape(&ok, &err, false, true, None, true), FusedResultShape::CallOnly));
}

#[test]
fn variant_spreads_carry_base_slots() {
    let r = struct_call_plan(
        "Shape",
        Some("ShapeCircle".to_string()),
        vec![field("radius", "r", false)],
        Vec::new(),
        EvaluationEffect::Pure,
        false,
        StructSpread::Variant { base: name_plan("old"), carried: vec!["color".to_string()], base_order_sensitive: false },
        false,
        &Vec::new(),
        &"spread".to_string(),
    );
    assert_eq!(r.expression.rendered, "Shape{\nTag: ShapeCircle,\nradius: r,\ncolor: old.color,\n}");
    assert!(r.expression.composite_literal);
    assert!(r.setup.is_empty());
}

#[test]
fn variant_spreads_without_carried_slots_still_evaluate_the_base() {
    let r = struct_call_plan(
        "Shape",
        Some("ShapeDot".to_string()),
        Vec::new(),
        Vec::new(),
        EvaluationEffect::Pure,
        false,
        StructSpread::Variant { base: plan("make()", Stability::Observable, EvaluationEffect::EffectfulCall), carried: Vec::new(), base_order_sensitive: true },
        false,
        &Vec::new(),
        &"spread".to_string(),
    );
    assert_eq!(raw(&r.setup[0]), "_ = make()\n");
    assert_eq!(r.expression.rendered, "Shape{ Tag: ShapeDot }");
}

#[test]
fn order_sensitive_variant_bases_are_pinned() {
    let r = struct_call_plan(
        "Shape",
        Some("ShapeCircle".to_string()),
        Vec::new(),
        Vec::new(),
        EvaluationEffect::Pure,
        false,
        StructSpread::Variant { base: plan("load()", Stability::Observable, EvaluationEffect::EffectfulCall), carried: vec!["color".to_string()], base_order_sensitive: true },
        false,
        &Vec::new(),
        &"spread".to_string(),
    );
    assert_eq!(temp_bind(&r.setup[0]), ("spread".to_string(), "load()".to_string()));
    assert_eq!(r.expression.rendered, "Shape{\nTag: ShapeCircle,\ncolor: spread.color,\n}");
}

#[test]
fn a_pinned_value_is_bound_before_later_setup() {
    let mut later = name_plan("t");
    later.setup.push(LoweredStatement::TempBind { name: "t".to_string(), value: "work()".to_string() });
    let stages = vec![plan("x.count", Stability::Observable, EvaluationEffect::Pure), later];
    let sequenced = sequence_values(stages, CaptureBoundary::SiblingSequence, &names(&["pin"]));
    assert_eq!(temp_bind(&sequenced.setup[0]), ("pin".to_string(), "x.count".to_string()));
    assert_eq!(temp_bind(&sequenced.setup[1]), ("t".to_string(), "work()".to_string()));
    assert_eq!(sequenced.values[0].rendered, "pin");
}

#[test]
fn a_second_qualifier_of_a_requirement_is_imported_again() {
    let mut requirements = PackageRequirements::default();
    requirements.require(PackageUse::new("fmt".to_string(), "".to_string()));
    requirements.require(PackageUse::new("fmt".to_string(), "f".to_string()));
    let mut builder = ImportBuilder::new(Vec::new(), Vec::new());
    builder.extend_with_package_uses(&requirements);
    let (imports, collisions) = builder.build();
    let listed: Vec<(String, String)> = imports.iter().map(|i| (i.path.clone(), i.alias.clone())).collect();
    assert_eq!(listed, vec![("fmt".to_string(), "".to_string()), ("fmt".to_string(), "f".to_string())]);
    assert!(collisions.is_empty());
}
