use emit::lowered::{
    AssignForm, BreakValueAction, BreakValuePlan, CompoundKind, ConstPlan, ElseArm, IfPlan,
    LoopKind, LoopPlan, LoopTransfer, LoweredBlock, LoweredStatement, ReturnForm, SelectArmPlan,
    SelectStatementPlan, SwitchCasePlan, SwitchKind, SwitchStatementPlan,
};
use emit::render::Renderer;
use emit::values::{ConstantKind, ValuePlan};

fn raw(code: &str) -> LoweredStatement {
    LoweredStatement::RawGo(code.to_string())
}

fn block(statements: Vec<LoweredStatement>) -> LoweredBlock {
    LoweredBlock { statements }
}

fn render(statement: LoweredStatement) -> String {
    Renderer.render_setup(&vec![statement])
}

#[test]
fn temp_bind_renders_short_declaration() {
    let text = render(LoweredStatement::TempBind {
        name: "t".to_string(),
        value: "f()".to_string(),
    });
    assert_eq!(text, "t := f()\n");
}

#[test]
fn var_decl_renders_with_and_without_value() {
    let with_value = render(LoweredStatement::VarDecl {
        name: "x".to_string(),
        go_type: "int".to_string(),
        value: Some("1".to_string()),
    });
    assert_eq!(with_value, "var x int = 1\n");
    let without_value = render(LoweredStatement::VarDecl {
        name: "x".to_string(),
        go_type: "int".to_string(),
        value: None,
    });
    assert_eq!(without_value, "var x int\n");
}

#[test]
fn if_else_renders_both_branches() {
    let plan = IfPlan {
        condition_setup: Vec::new(),
        condition: "x > 0".to_string(),
        then_body: block(vec![raw("a()\n")]),
        else_arm: ElseArm::Else { body: block(vec![raw("b()\n")]), inline: false },
    };
    assert_eq!(render(LoweredStatement::If(plan)), "if x > 0 {\na()\n} else {\nb()\n}\n");
}

#[test]
fn inline_else_follows_the_closing_brace() {
    let plan = IfPlan {
        condition_setup: Vec::new(),
        condition: "done".to_string(),
        then_body: block(vec![LoweredStatement::Return(ReturnForm::Unit { side_effect: None })]),
        else_arm: ElseArm::Else { body: block(vec![raw("more()\n")]), inline: true },
    };
    assert_eq!(render(LoweredStatement::If(plan)), "if done {\nreturn\n}\nmore()\n");
}

#[test]
fn else_if_without_setup_chains_and_with_setup_nests() {
    let inner = IfPlan {
        condition_setup: Vec::new(),
        condition: "b".to_string(),
        then_body: block(vec![raw("y()\n")]),
        else_arm: ElseArm::NoElse,
    };
    let plan = IfPlan {
        condition_setup: Vec::new(),
        condition: "a".to_string(),
        then_body: block(vec![raw("x()\n")]),
        else_arm: ElseArm::ElseIf(Box::new(inner)),
    };
    assert_eq!(render(LoweredStatement::If(plan)), "if a {\nx()\n} else if b {\ny()\n}\n");

    let inner = IfPlan {
        condition_setup: vec![raw("t := g()\n")],
        condition: "t".to_string(),
        then_body: block(vec![raw("y()\n")]),
        else_arm: ElseArm::NoElse,
    };
    let plan = IfPlan {
        condition_setup: Vec::new(),
        condition: "a".to_string(),
        then_body: block(vec![raw("x()\n")]),
        else_arm: ElseArm::ElseIf(Box::new(inner)),
    };
    assert_eq!(
        render(LoweredStatement::If(plan)),
        "if a {\nx()\n} else {\nt := g()\nif t {\ny()\n}\n}\n"
    );
}

#[test]
fn value_switch_renders_cases_default_and_postlude() {
    let plan = SwitchStatementPlan {
        kind: SwitchKind::Value { subject: "v".to_string() },
        cases: vec![SwitchCasePlan { labels: "1".to_string(), body: block(vec![raw("one()\n")]) }],
        default: Some(block(vec![raw("other()\n")])),
        postlude: vec![LoweredStatement::UnreachablePanic],
    };
    assert_eq!(
        render(LoweredStatement::Switch(plan)),
        "switch v {\ncase 1:\none()\ndefault:\nother()\n}\npanic(\"unreachable\")\n"
    );
}

#[test]
fn type_switch_binds_only_when_asked() {
    let bound = SwitchStatementPlan {
        kind: SwitchKind::Type { subject: "x".to_string(), binding: Some("x".to_string()) },
        cases: Vec::new(),
        default: None,
        postlude: Vec::new(),
    };
    assert_eq!(render(LoweredStatement::Switch(bound)), "switch x := x.(type) {\n}\n");
    let unbound = SwitchStatementPlan {
        kind: SwitchKind::Type { subject: "x".to_string(), binding: None },
        cases: Vec::new(),
        default: None,
        postlude: Vec::new(),
    };
    assert_eq!(render(LoweredStatement::Switch(unbound)), "switch x.(type) {\n}\n");
}

#[test]
fn labeled_loop_renders_label_header_and_body() {
    let plan = LoopPlan {
        prologue: vec![raw("i := 0\n")],
        kind: LoopKind::Generated { label: Some("outer".to_string()) },
        header: "for {\n".to_string(),
        body: block(vec![LoweredStatement::Break(LoopTransfer::Labeled("outer".to_string()))]),
    };
    assert_eq!(render(LoweredStatement::Loop(plan)), "i := 0\nouter:\nfor {\nbreak outer\n}\n");
}

#[test]
fn return_forms_render() {
    let multi = ReturnForm::Multi { values: vec!["a".to_string(), "b".to_string()] };
    assert_eq!(render(LoweredStatement::Return(multi)), "return a, b\n");
    let plain = ReturnForm::Plain { value: ValuePlan::opaque("x".to_string()) };
    assert_eq!(render(LoweredStatement::Return(plain)), "return x\n");
    let unit = ReturnForm::Unit { side_effect: Some(block(vec![raw("f()\n")])) };
    assert_eq!(render(LoweredStatement::Return(unit)), "f()\nreturn\n");
}

#[test]
fn break_value_assigns_then_breaks() {
    let plan = BreakValuePlan::Transfer {
        value: ValuePlan::opaque("x".to_string()),
        action: BreakValueAction::AssignToResult { result_var: "r".to_string() },
        target: LoopTransfer::Unlabeled,
    };
    assert_eq!(render(LoweredStatement::BreakValue(plan)), "r = x\nbreak\n");
    let unit = BreakValuePlan::Transfer {
        value: ValuePlan::opaque("f()".to_string()),
        action: BreakValueAction::UnitCallIntoResult { result_var: "r".to_string() },
        target: LoopTransfer::Labeled("loop".to_string()),
    };
    assert_eq!(
        render(LoweredStatement::BreakValue(unit)),
        "f()\nr = struct{}{}\nbreak loop\n"
    );
    let discard = BreakValuePlan::Transfer {
        value: ValuePlan::opaque(String::new()),
        action: BreakValueAction::Discard,
        target: LoopTransfer::Unlabeled,
    };
    assert_eq!(render(LoweredStatement::BreakValue(discard)), "break\n");
}

#[test]
fn retry_select_breaks_unless_every_arm_diverges() {
    let plan = SelectStatementPlan {
        setup: Vec::new(),
        retry_loop: true,
        arms: vec![SelectArmPlan::Receive {
            receive_vars: Some("v".to_string()),
            channel: "ch".to_string(),
            body: block(vec![raw("use(v)\n")]),
        }],
        postlude: Vec::new(),
    };
    assert_eq!(
        render(LoweredStatement::Select(plan)),
        "for {\nselect {\ncase v := <-ch:\nuse(v)\n}\nbreak\n}\n"
    );
    let diverging = SelectStatementPlan {
        setup: Vec::new(),
        retry_loop: true,
        arms: vec![SelectArmPlan::Default {
            body: block(vec![LoweredStatement::Continue(LoopTransfer::Unlabeled)]),
        }],
        postlude: Vec::new(),
    };
    assert_eq!(
        render(LoweredStatement::Select(diverging)),
        "for {\nselect {\ndefault:\ncontinue\n}\n}\n"
    );
}

#[test]
fn closure_bind_trims_the_opening_newlines() {
    let text = render(LoweredStatement::ClosureBind {
        name: "f".to_string(),
        closure_open: "func() {\n\n".to_string(),
        body: block(vec![raw("x()\n")]),
        closure_close: "}\n".to_string(),
    });
    assert_eq!(text, "f := func() {\nx()\n}\n");
}

#[test]
fn compound_assignments_render() {
    let pinned = AssignForm::Compound {
        target_capture: Vec::new(),
        target_str: "x".to_string(),
        kind: CompoundKind::OpAssign {
            op_text: "+".to_string(),
            rhs: ValuePlan::opaque("1".to_string()),
            pinned_left: Some("y".to_string()),
        },
    };
    assert_eq!(render(LoweredStatement::Assign(pinned)), "x = y + 1\n");
    let plain = AssignForm::Compound {
        target_capture: Vec::new(),
        target_str: "x".to_string(),
        kind: CompoundKind::OpAssign {
            op_text: "+".to_string(),
            rhs: ValuePlan::opaque("1".to_string()),
            pinned_left: None,
        },
    };
    assert_eq!(render(LoweredStatement::Assign(plain)), "x += 1\n");
    let increment = AssignForm::Compound {
        target_capture: vec![raw("p := &a[i]\n")],
        target_str: "*p".to_string(),
        kind: CompoundKind::Increment,
    };
    assert_eq!(render(LoweredStatement::Assign(increment)), "p := &a[i]\n*p++\n");
}

#[test]
fn const_declaration_renders() {
    let plan = ConstPlan {
        is_const: true,
        name: "N".to_string(),
        ty_str: "int".to_string(),
        value: ValuePlan::constant("3".to_string(), ConstantKind::Int),
    };
    assert_eq!(render(LoweredStatement::Const(plan)), "const N int = 3\n");
}

#[test]
fn directive_precedes_its_statement() {
    let text = render(LoweredStatement::Directed {
        directive: "//line a.lis:3\n".to_string(),
        inner: Box::new(LoweredStatement::UnreachablePanic),
    });
    assert_eq!(text, "//line a.lis:3\npanic(\"unreachable\")\n");
}

#[test]
fn block_statement_adds_braces_and_body_does_not() {
    assert_eq!(render(LoweredStatement::Block(block(vec![raw("a()\n")]))), "{\na()\n}\n");
    assert_eq!(render(LoweredStatement::Body(block(vec![raw("a()\n")]))), "a()\n");
}

#[test]
fn divergence_follows_the_last_statement() {
    let b = block(vec![raw("a()\n"), LoweredStatement::Return(ReturnForm::Unit { side_effect: None })]);
    assert!(b.ends_with_diverge());
    let b = block(vec![LoweredStatement::UnreachablePanic, raw("a()\n")]);
    assert!(!b.ends_with_diverge());
    let empty = block(Vec::new());
    assert!(!empty.ends_with_diverge());
    assert!(empty.renders_empty());
    assert!(block(vec![raw("")]).renders_empty());
    assert!(!block(vec![raw("x\n")]).renders_empty());
}

#[test]
fn renaming_a_bound_name_reads_back() {
    let mut statement = LoweredStatement::Directed {
        directive: "//line a:1\n".to_string(),
        inner: Box::new(LoweredStatement::TempBind { name: "t".to_string(), value: "v".to_string() }),
    };
    assert!(statement.binds_name("t"));
    assert!(statement.rename_bound_name("u"));
    assert_eq!(statement.bound_name(), Some("u"));
    let mut raw_statement = raw("x\n");
    assert!(!raw_statement.rename_bound_name("u"));
    assert_eq!(raw_statement.bound_name(), None);
}
