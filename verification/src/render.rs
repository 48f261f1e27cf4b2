//! Rendering of the lowered body IR to Go text.
//!
//! Each `render_*` function appends exactly the text that the matching spec
//! function below describes.

use vstd::prelude::*;
use crate::lowered::{
    AssignForm, BreakValueAction, BreakValuePlan, CompoundKind, ConstPlan, ElseArm,
    ExpressionStatementForm, IfPlan, LetPlan, LoopKind, LoopPlan, LoopTransfer, LoweredBlock,
    LoweredStatement, ReturnForm, SelectArmPlan, SelectStatementPlan, SwitchCasePlan, SwitchKind,
    SwitchStatementPlan, arms_all_diverge, renders_empty,
};
use crate::text::{push_char, seq_join, views_of, join};
use crate::values::ValuePlan;

verus! {

broadcast use vstd::std_specs::vec::axiom_vec_decreases_to_view;

/// `t` followed by a newline.
pub open spec fn line(t: Seq<char>) -> Seq<char> {
    t.push('\n')
}

/// `s` without its trailing newlines.
pub open spec fn trim_newlines(s: Seq<char>) -> Seq<char>
    decreases s.len(),
{
    if s.len() > 0 && s.last() == '\n' {
        trim_newlines(s.drop_last())
    } else {
        s
    }
}

/// The line of a `break` or `continue` to a legalized target.
pub open spec fn transfer_text(keyword: Seq<char>, target: LoopTransfer) -> Seq<char> {
    match target {
        LoopTransfer::Labeled(label) => line(keyword + seq![' '] + label@),
        _ => line(keyword),
    }
}

/// The `label:` line of a labeled loop.
pub open spec fn label_text(kind: LoopKind) -> Seq<char> {
    match kind {
        LoopKind::Source { label } | LoopKind::Generated { label } => match label {
            Some(l) => line(l@ + seq![':']),
            None => Seq::empty(),
        },
    }
}

/// The header line of a `switch`.
pub open spec fn switch_header(kind: SwitchKind) -> Seq<char> {
    match kind {
        SwitchKind::Conditional => "switch {\n"@,
        SwitchKind::Value { subject } => line("switch "@ + subject@ + " {"@),
        SwitchKind::Type { subject, binding } => match binding {
            Some(b) => line("switch "@ + b@ + " := "@ + subject@ + ".(type) {"@),
            None => line("switch "@ + subject@ + ".(type) {"@),
        },
    }
}

/// What a `break value` writes once the value's setup has run.
pub open spec fn break_action_text(action: BreakValueAction, value: Seq<char>) -> Seq<char> {
    match action {
        BreakValueAction::UnitCallIntoResult { result_var } => (if value.len() > 0 {
            line(value)
        } else {
            Seq::empty()
        }) + line(result_var@ + " = struct{}{}"@),
        BreakValueAction::AssignToResult { result_var } => if value.len() > 0 {
            line(result_var@ + " = "@ + value)
        } else {
            Seq::empty()
        },
        BreakValueAction::Discard => if value.len() > 0 {
            line("_ = "@ + value)
        } else {
            Seq::empty()
        },
    }
}

/// The text of a statement sequence.
pub open spec fn stmts_text(ss: Seq<LoweredStatement>) -> Seq<char>
    decreases ss,
{
    if ss.len() == 0 {
        Seq::empty()
    } else {
        proof {
            assert(decreases_to!(ss => ss.subrange(0, ss.len() - 1)));
            assert(decreases_to!(ss => ss[ss.len() - 1]));
        }
        stmts_text(ss.subrange(0, ss.len() - 1)) + stmt_text(ss[ss.len() - 1])
    }
}

/// The text of a block: its statements, with no braces.
pub open spec fn block_text(b: LoweredBlock) -> Seq<char>
    decreases b,
{
    stmts_text(b.statements@)
}

/// The text of the arms of a `select`.
pub open spec fn arms_text(arms: Seq<SelectArmPlan>) -> Seq<char>
    decreases arms,
{
    if arms.len() == 0 {
        Seq::empty()
    } else {
        proof {
            assert(decreases_to!(arms => arms.subrange(0, arms.len() - 1)));
            assert(decreases_to!(arms => arms[arms.len() - 1]));
        }
        arms_text(arms.subrange(0, arms.len() - 1)) + arm_text(arms[arms.len() - 1])
    }
}

/// The text of one `select` arm.
pub open spec fn arm_text(arm: SelectArmPlan) -> Seq<char>
    decreases arm,
{
    match arm {
        SelectArmPlan::Receive { receive_vars, channel, body } => (match receive_vars {
            Some(vars) => line("case "@ + vars@ + " := <-"@ + channel@ + seq![':']),
            None => line("case <-"@ + channel@ + seq![':']),
        }) + block_text(body),
        SelectArmPlan::Send { operation, body } => line("case "@ + operation.rendered@ + seq![':'])
            + block_text(body),
        SelectArmPlan::Default { body } => "default:\n"@ + block_text(body),
    }
}

/// The text of the cases of a `switch`.
pub open spec fn cases_text(cases: Seq<SwitchCasePlan>) -> Seq<char>
    decreases cases,
{
    if cases.len() == 0 {
        Seq::empty()
    } else {
        proof {
            assert(decreases_to!(cases => cases.subrange(0, cases.len() - 1)));
            assert(decreases_to!(cases => cases[cases.len() - 1]));
        }
        let c = cases[cases.len() - 1];
        cases_text(cases.subrange(0, cases.len() - 1)) + line("case "@ + c.labels@ + seq![':'])
            + block_text(c.body)
    }
}

/// The text of a `select` statement.
pub open spec fn select_text(p: SelectStatementPlan) -> Seq<char>
    decreases p,
{
    stmts_text(p.setup@) + (if p.retry_loop {
        "for {\n"@
    } else {
        Seq::empty()
    }) + "select {\n"@ + arms_text(p.arms@) + "}\n"@ + (if p.retry_loop {
        if arms_all_diverge(p.arms@) {
            "}\n"@
        } else {
            "break\n}\n"@
        }
    } else {
        Seq::empty()
    }) + stmts_text(p.postlude@)
}

/// The text of a `switch` statement.
pub open spec fn switch_text(p: SwitchStatementPlan) -> Seq<char>
    decreases p,
{
    switch_header(p.kind) + cases_text(p.cases@) + (match p.default {
        Some(b) => "default:\n"@ + block_text(b),
        None => Seq::empty(),
    }) + "}\n"@ + stmts_text(p.postlude@)
}

/// The text of an `if` statement, up to and including its closing brace.
pub open spec fn if_text(p: IfPlan) -> Seq<char>
    decreases p,
{
    stmts_text(p.condition_setup@) + line("if "@ + p.condition@ + " {"@) + block_text(p.then_body)
        + else_text(p.else_arm)
}

/// The text that closes an `if` branch and renders its `else` arm.
pub open spec fn else_text(arm: ElseArm) -> Seq<char>
    decreases arm,
{
    match arm {
        ElseArm::NoElse => "}\n"@,
        ElseArm::ElseIf(inner) => if inner.condition_setup@.len() > 0 {
            "} else {\n"@ + stmts_text(inner.condition_setup@) + line("if "@ + inner.condition@ + " {"@)
                + block_text(inner.then_body) + else_text(inner.else_arm) + "}\n"@
        } else {
            line("} else if "@ + inner.condition@ + " {"@) + block_text(inner.then_body) + else_text(
                inner.else_arm,
            )
        },
        ElseArm::Else { body, inline } => if inline {
            "}\n"@ + block_text(body)
        } else {
            "} else {\n"@ + block_text(body) + "}\n"@
        },
    }
}

/// The text of a planned value's setup statements.
pub open spec fn setup_text(v: ValuePlan) -> Seq<char>
    decreases v,
{
    stmts_text(v.setup@)
}

/// The text of one statement.
pub open spec fn stmt_text(s: LoweredStatement) -> Seq<char>
    decreases s,
{
    match s {
        LoweredStatement::If(p) => if_text(p),
        LoweredStatement::Loop(p) => stmts_text(p.prologue@) + label_text(p.kind) + p.header@
            + block_text(p.body) + "}\n"@,
        LoweredStatement::Block(b) => "{\n"@ + block_text(b) + "}\n"@,
        LoweredStatement::Body(b) => block_text(b),
        LoweredStatement::Break(t) => transfer_text("break"@, t),
        LoweredStatement::Continue(t) => transfer_text("continue"@, t),
        LoweredStatement::Const(p) => setup_text(p.value) + line(
            (if p.is_const {
                "const"@
            } else {
                "var"@
            }) + seq![' '] + p.name@ + seq![' '] + p.ty_str@ + " = "@ + p.value.expression.rendered@,
        ),
        LoweredStatement::Return(f) => match f {
            ReturnForm::Plain { value } => setup_text(value) + line(
                "return "@ + value.expression.rendered@,
            ),
            ReturnForm::Unit { side_effect } => (match side_effect {
                Some(b) => block_text(b),
                None => Seq::empty(),
            }) + "return\n"@,
            ReturnForm::Multi { values } => line("return "@ + seq_join(views_of(values@), ", "@)),
            ReturnForm::Body { body } => block_text(body),
        },
        LoweredStatement::BreakValue(p) => match p {
            BreakValuePlan::Diverged { value } => setup_text(value),
            BreakValuePlan::Transfer { value, action, target } => setup_text(value)
                + break_action_text(action, value.expression.rendered@) + transfer_text(
                "break"@,
                target,
            ),
        },
        LoweredStatement::Let(p) => (match p.declaration {
            Some(d) => stmt_text(*d),
            None => Seq::empty(),
        }) + block_text(p.body),
        LoweredStatement::Assign(f) => match f {
            AssignForm::Compound { target_capture, target_str, kind } => stmts_text(target_capture@)
                + (match kind {
                CompoundKind::Increment => line(target_str@ + "++"@),
                CompoundKind::Decrement => line(target_str@ + "--"@),
                CompoundKind::OpAssign { op_text, rhs, pinned_left } => setup_text(rhs) + (match pinned_left {
                    Some(left) => line(
                        target_str@ + " = "@ + left@ + seq![' '] + op_text@ + seq![' ']
                            + rhs.expression.rendered@,
                    ),
                    None => line(target_str@ + seq![' '] + op_text@ + "= "@ + rhs.expression.rendered@),
                }),
            }),
            AssignForm::Simple { target_capture, target_str, value } => stmts_text(target_capture@)
                + setup_text(value) + line(target_str@ + " = "@ + value.expression.rendered@),
        },
        LoweredStatement::Expression(f) => match f {
            ExpressionStatementForm::Async { value } => setup_text(value) + (if value.expression.rendered@.len()
                > 0 {
                line(value.expression.rendered@)
            } else {
                Seq::empty()
            }),
            ExpressionStatementForm::AsyncBlock { keyword, body } => line(keyword@ + " func() {"@)
                + block_text(body) + "}()\n"@,
        },
        LoweredStatement::Select(p) => select_text(p),
        LoweredStatement::Switch(p) => switch_text(p),
        LoweredStatement::WhileLet(b) => block_text(b),
        LoweredStatement::TempBind { name, value } => line(name@ + " := "@ + value@),
        LoweredStatement::VarDecl { name, go_type, value } => match value {
            Some(v) => line("var "@ + name@ + seq![' '] + go_type@ + " = "@ + v@),
            None => line("var "@ + name@ + seq![' '] + go_type@),
        },
        LoweredStatement::ClosureBind { name, closure_open, body, closure_close } => line(
            name@ + " := "@ + trim_newlines(closure_open@),
        ) + block_text(body) + closure_close@,
        LoweredStatement::Directed { directive, inner } => directive@ + stmt_text(*inner),
        LoweredStatement::RawGo(code) | LoweredStatement::DivergingRawGo(code) => code@,
        LoweredStatement::UnreachablePanic => "panic(\"unreachable\")\n"@,
    }
}


/// A loop transfer that names its target by label or by nesting.
pub open spec fn transfer_ok(t: LoopTransfer) -> bool {
    !(t is Source)
}

/// Every statement of the sequence can be rendered.
pub open spec fn stmts_ok(ss: Seq<LoweredStatement>) -> bool
    decreases ss,
{
    forall|i: int|
        0 <= i < ss.len() ==> {
            proof {
                assert(decreases_to!(ss => ss[i]));
            }
            stmt_ok(#[trigger] ss[i])
        }
}

pub open spec fn block_ok(b: LoweredBlock) -> bool
    decreases b,
{
    stmts_ok(b.statements@)
}

pub open spec fn value_ok(v: ValuePlan) -> bool
    decreases v,
{
    stmts_ok(v.setup@)
}

pub open spec fn arms_ok(arms: Seq<SelectArmPlan>) -> bool
    decreases arms,
{
    forall|i: int|
        0 <= i < arms.len() ==> {
            proof {
                assert(decreases_to!(arms => arms[i]));
            }
            arm_ok(#[trigger] arms[i])
        }
}

pub open spec fn arm_ok(arm: SelectArmPlan) -> bool
    decreases arm,
{
    match arm {
        SelectArmPlan::Receive { body, .. } => block_ok(body),
        SelectArmPlan::Send { body, .. } => block_ok(body),
        SelectArmPlan::Default { body } => block_ok(body),
    }
}

pub open spec fn cases_ok(cases: Seq<SwitchCasePlan>) -> bool
    decreases cases,
{
    forall|i: int|
        0 <= i < cases.len() ==> {
            proof {
                assert(decreases_to!(cases => cases[i]));
            }
            block_ok(#[trigger] cases[i].body)
        }
}

/// An `if` with a condition, renderable parts, and an `else` arm that is
/// either absent, another renderable `if`, or a body that renders text.
pub open spec fn if_ok(p: IfPlan) -> bool
    decreases p,
{
    &&& p.condition@.len() > 0
    &&& stmts_ok(p.condition_setup@)
    &&& block_ok(p.then_body)
    &&& else_ok(p.else_arm)
}

pub open spec fn else_ok(arm: ElseArm) -> bool
    decreases arm,
{
    match arm {
        ElseArm::NoElse => true,
        ElseArm::ElseIf(inner) => if_ok(*inner),
        ElseArm::Else { body, .. } => !renders_empty(body) && block_ok(body),
    }
}

/// A statement the renderer accepts: every loop transfer is legalized,
/// every loop has a header, every `if` a condition, and every `else` body
/// renders text.
pub open spec fn stmt_ok(s: LoweredStatement) -> bool
    decreases s,
{
    match s {
        LoweredStatement::If(p) => if_ok(p),
        LoweredStatement::Loop(p) => p.header@.len() > 0 && stmts_ok(p.prologue@) && block_ok(p.body),
        LoweredStatement::Block(b) => block_ok(b),
        LoweredStatement::Body(b) => block_ok(b),
        LoweredStatement::WhileLet(b) => block_ok(b),
        LoweredStatement::Break(t) => transfer_ok(t),
        LoweredStatement::Continue(t) => transfer_ok(t),
        LoweredStatement::Const(p) => value_ok(p.value),
        LoweredStatement::Return(f) => match f {
            ReturnForm::Plain { value } => value_ok(value),
            ReturnForm::Unit { side_effect } => match side_effect {
                Some(b) => block_ok(b),
                None => true,
            },
            ReturnForm::Multi { .. } => true,
            ReturnForm::Body { body } => block_ok(body),
        },
        LoweredStatement::BreakValue(p) => match p {
            BreakValuePlan::Diverged { value } => value_ok(value),
            BreakValuePlan::Transfer { value, target, .. } => value_ok(value) && transfer_ok(target),
        },
        LoweredStatement::Let(p) => (match p.declaration {
            Some(d) => stmt_ok(*d),
            None => true,
        }) && block_ok(p.body),
        LoweredStatement::Assign(f) => match f {
            AssignForm::Compound { target_capture, kind, .. } => stmts_ok(target_capture@) && match kind {
                CompoundKind::OpAssign { rhs, .. } => value_ok(rhs),
                _ => true,
            },
            AssignForm::Simple { target_capture, value, .. } => stmts_ok(target_capture@) && value_ok(
                value,
            ),
        },
        LoweredStatement::Expression(f) => match f {
            ExpressionStatementForm::Async { value } => value_ok(value),
            ExpressionStatementForm::AsyncBlock { body, .. } => block_ok(body),
        },
        LoweredStatement::Select(p) => stmts_ok(p.setup@) && arms_ok(p.arms@) && stmts_ok(p.postlude@),
        LoweredStatement::Switch(p) => cases_ok(p.cases@) && (match p.default {
            Some(b) => block_ok(b),
            None => true,
        }) && stmts_ok(p.postlude@),
        LoweredStatement::ClosureBind { body, .. } => block_ok(body),
        LoweredStatement::Directed { inner, .. } => stmt_ok(*inner),
        _ => true,
    }
}

/// `s` without its trailing newlines.
fn trim_trailing_newlines(s: &str) -> (r: &str)
    ensures
        r@ == trim_newlines(s@),
{
    let mut end = s.unicode_len();
    assert(s@.subrange(0, end as int) =~= s@);
    while end > 0 && s.get_char(end - 1) == '\n'
        invariant
            end <= s@.len(),
            trim_newlines(s@.subrange(0, end as int)) == trim_newlines(s@),
        decreases end,
    {
        let ghost cur = s@.subrange(0, end as int);
        assert(cur.drop_last() =~= s@.subrange(0, end - 1));
        end = end - 1;
    }
    proof {
        let cur = s@.subrange(0, end as int);
        if end > 0 {
            assert(cur.last() == s@[end - 1]);
        }
    }
    s.substring_char(0, end)
}

/// Appends `text` and a newline.
fn write_line(output: &mut String, text: &str)
    ensures
        final(output)@ == old(output)@ + line(text@),
{
    output.append(text);
    push_char(output, '\n');
    assert(final(output)@ =~= old(output)@ + line(text@));
}

/// Renders lowered bodies to Go text.
pub struct Renderer;

impl Renderer {
    /// Renders setup statements to a fresh string.
    pub fn render_setup(&self, setup: &Vec<LoweredStatement>) -> (r: String)
        requires
            stmts_ok(setup@),
        ensures
            r@ == stmts_text(setup@),
        decreases setup, 1int,
    {
        let mut buffer = String::new();
        self.render_stmts(&mut buffer, setup);
        assert(buffer@ =~= stmts_text(setup@));
        buffer
    }

    fn render_stmts(&self, output: &mut String, stmts: &Vec<LoweredStatement>)
        requires
            stmts_ok(stmts@),
        ensures
            final(output)@ == old(output)@ + stmts_text(stmts@),
        decreases stmts, 0int,
    {
        let ghost start = output@;
        let mut i: usize = 0;
        while i < stmts.len()
            invariant
                i <= stmts@.len(),
                stmts_ok(stmts@),
                output@ == start + stmts_text(stmts@.subrange(0, i as int)),
            decreases stmts.len() - i,
        {
            proof {
                assert(decreases_to!(stmts => stmts@));
                assert(decreases_to!(stmts@ => stmts@[i as int]));
                assert(stmt_ok(stmts@[i as int]));
                let next = stmts@.subrange(0, i + 1);
                assert(next.subrange(0, next.len() - 1) =~= stmts@.subrange(0, i as int));
                assert(next[next.len() - 1] == stmts@[i as int]);
            }
            self.render_statement(output, &stmts[i]);
            proof {
                let next = stmts@.subrange(0, i + 1);
                assert(stmts_text(next) == stmts_text(stmts@.subrange(0, i as int)) + stmt_text(
                    stmts@[i as int],
                ));
                assert(output@ =~= start + stmts_text(next));
            }
            i = i + 1;
        }
        assert(stmts@.subrange(0, i as int) =~= stmts@);
    }

    pub fn render_lowered_block(&self, output: &mut String, block: &LoweredBlock)
        requires
            block_ok(*block),
        ensures
            final(output)@ == old(output)@ + block_text(*block),
        decreases block, 1int,
    {
        self.render_stmts(output, &block.statements);
    }

    /// Renders a `select` statement: optional retry-loop framing around the
    /// `select { ... }`, its arms, and any trailing postlude.
    fn render_select(&self, output: &mut String, plan: &SelectStatementPlan)
        requires
            stmts_ok(plan.setup@),
            arms_ok(plan.arms@),
            stmts_ok(plan.postlude@),
        ensures
            final(output)@ == old(output)@ + select_text(*plan),
        decreases plan, 1int,
    {
        let ghost start = output@;
        self.render_stmts(output, &plan.setup);
        if plan.retry_loop {
            output.append("for {\n");
        }
        output.append("select {\n");
        let ghost before_arms = output@;
        let mut i: usize = 0;
        while i < plan.arms.len()
            invariant
                i <= plan.arms@.len(),
                arms_ok(plan.arms@),
                output@ == before_arms + arms_text(plan.arms@.subrange(0, i as int)),
            decreases plan.arms.len() - i,
        {
            proof {
                assert(decreases_to!(plan.arms => plan.arms@));
                assert(decreases_to!(plan.arms@ => plan.arms@[i as int]));
                assert(arm_ok(plan.arms@[i as int]));
                let next = plan.arms@.subrange(0, i + 1);
                assert(next.subrange(0, next.len() - 1) =~= plan.arms@.subrange(0, i as int));
                assert(next[next.len() - 1] == plan.arms@[i as int]);
            }
            self.render_select_arm(output, &plan.arms[i]);
            proof {
                let next = plan.arms@.subrange(0, i + 1);
                assert(output@ =~= before_arms + arms_text(next));
            }
            i = i + 1;
        }
        assert(plan.arms@.subrange(0, i as int) =~= plan.arms@);
        output.append("}\n");
        if plan.retry_loop {
            if plan.all_arms_diverge() {
                output.append("}\n");
            } else {
                output.append("break\n}\n");
            }
        }
        self.render_stmts(output, &plan.postlude);
        assert(output@ =~= start + select_text(*plan));
    }

    /// Renders a `switch` statement: the header, each `case` or `default:`
    /// with its body, the closing brace, and any postlude.
    fn render_switch(&self, output: &mut String, plan: &SwitchStatementPlan)
        requires
            cases_ok(plan.cases@),
            match plan.default {
                Some(b) => block_ok(b),
                None => true,
            },
            stmts_ok(plan.postlude@),
        ensures
            final(output)@ == old(output)@ + switch_text(*plan),
        decreases plan, 1int,
    {
        let ghost start = output@;
        match &plan.kind {
            SwitchKind::Conditional => output.append("switch {\n"),
            SwitchKind::Value { subject } => {
                output.append("switch ");
                output.append(subject.as_str());
                write_line(output, " {");
            },
            SwitchKind::Type { subject, binding: Some(binding) } => {
                output.append("switch ");
                output.append(binding.as_str());
                output.append(" := ");
                output.append(subject.as_str());
                write_line(output, ".(type) {");
            },
            SwitchKind::Type { subject, binding: None } => {
                output.append("switch ");
                output.append(subject.as_str());
                write_line(output, ".(type) {");
            },
        }
        assert(output@ =~= start + switch_header(plan.kind));
        let ghost before_cases = output@;
        let mut i: usize = 0;
        while i < plan.cases.len()
            invariant
                i <= plan.cases@.len(),
                cases_ok(plan.cases@),
                output@ == before_cases + cases_text(plan.cases@.subrange(0, i as int)),
            decreases plan.cases.len() - i,
        {
            proof {
                assert(decreases_to!(plan.cases => plan.cases@));
                assert(decreases_to!(plan.cases@ => plan.cases@[i as int]));
                assert(block_ok(plan.cases@[i as int].body));
                let next = plan.cases@.subrange(0, i + 1);
                assert(next.subrange(0, next.len() - 1) =~= plan.cases@.subrange(0, i as int));
                assert(next[next.len() - 1] == plan.cases@[i as int]);
            }
            proof {
                reveal_strlit(":");
            }
            let case = &plan.cases[i];
            output.append("case ");
            output.append(case.labels.as_str());
            write_line(output, ":");
            self.render_lowered_block(output, &case.body);
            proof {
                let next = plan.cases@.subrange(0, i + 1);
                assert(output@ =~= before_cases + cases_text(next));
            }
            i = i + 1;
        }
        assert(plan.cases@.subrange(0, i as int) =~= plan.cases@);
        if let Some(default_body) = &plan.default {
            output.append("default:\n");
            self.render_lowered_block(output, default_body);
        }
        output.append("}\n");
        self.render_stmts(output, &plan.postlude);
        assert(output@ =~= start + switch_text(*plan));
    }

    fn render_select_arm(&self, output: &mut String, arm: &SelectArmPlan)
        requires
            arm_ok(*arm),
        ensures
            final(output)@ == old(output)@ + arm_text(*arm),
        decreases arm, 1int,
    {
        let ghost start = output@;
        match arm {
            SelectArmPlan::Receive { receive_vars, channel, body } => {
                match receive_vars {
                    Some(vars) => {
                        output.append("case ");
                        output.append(vars.as_str());
                        output.append(" := <-");
                        output.append(channel.as_str());
                        write_line(output, ":");
                    },
                    None => {
                        output.append("case <-");
                        output.append(channel.as_str());
                        write_line(output, ":");
                    },
                }
                self.render_lowered_block(output, body);
            },
            SelectArmPlan::Send { operation, body } => {
                output.append("case ");
                output.append(operation.as_str());
                write_line(output, ":");
                self.render_lowered_block(output, body);
            },
            SelectArmPlan::Default { body } => {
                output.append("default:\n");
                self.render_lowered_block(output, body);
            },
        }
        proof {
            reveal_strlit(":");
        }
        assert(output@ =~= start + arm_text(*arm));
    }

    fn render_statement(&self, output: &mut String, statement: &LoweredStatement)
        requires
            stmt_ok(*statement),
        ensures
            final(output)@ == old(output)@ + stmt_text(*statement),
        decreases statement, 1int,
    {
        let ghost start = output@;
        match statement {
            LoweredStatement::If(plan) => self.render_if(output, plan),
            LoweredStatement::Loop(plan) => self.render_loop(output, plan),
            LoweredStatement::Block(body) => {
                output.append("{\n");
                self.render_lowered_block(output, body);
                output.append("}\n");
            },
            LoweredStatement::Body(body) => self.render_lowered_block(output, body),
            LoweredStatement::Break(target) => self.render_transfer(output, "break", target),
            LoweredStatement::Continue(target) => self.render_transfer(output, "continue", target),
            LoweredStatement::Const(plan) => self.render_const_declaration(output, plan),
            LoweredStatement::Return(plan) => self.render_return_statement(output, plan),
            LoweredStatement::BreakValue(plan) => self.render_break_value(output, plan),
            LoweredStatement::Let(plan) => self.render_let_statement(output, plan),
            LoweredStatement::Assign(plan) => self.render_assign_statement(output, plan),
            LoweredStatement::Expression(plan) => self.render_expression_statement(output, plan),
            LoweredStatement::Select(plan) => self.render_select(output, plan),
            LoweredStatement::Switch(plan) => self.render_switch(output, plan),
            LoweredStatement::WhileLet(body) => self.render_lowered_block(output, body),
            LoweredStatement::TempBind { name, value } => {
                output.append(name.as_str());
                output.append(" := ");
                write_line(output, value.as_str());
            },
            LoweredStatement::VarDecl { name, go_type, value } => {
                output.append("var ");
                output.append(name.as_str());
                push_char(output, ' ');
                match value {
                    Some(value) => {
                        output.append(go_type.as_str());
                        output.append(" = ");
                        write_line(output, value.as_str());
                    },
                    None => write_line(output, go_type.as_str()),
                }
            },
            LoweredStatement::ClosureBind { name, closure_open, body, closure_close } => {
                output.append(name.as_str());
                output.append(" := ");
                write_line(output, trim_trailing_newlines(closure_open.as_str()));
                self.render_lowered_block(output, body);
                output.append(closure_close.as_str());
            },
            LoweredStatement::Directed { directive, inner } => {
                output.append(directive.as_str());
                self.render_statement(output, inner);
            },
            LoweredStatement::RawGo(code) | LoweredStatement::DivergingRawGo(code) => {
                output.append(code.as_str())
            },
            LoweredStatement::UnreachablePanic => output.append("panic(\"unreachable\")\n"),
        }
        assert(output@ =~= start + stmt_text(*statement));
    }

    fn render_expression_statement(&self, output: &mut String, plan: &ExpressionStatementForm)
        requires
            stmt_ok(LoweredStatement::Expression(*plan)),
        ensures
            final(output)@ == old(output)@ + stmt_text(LoweredStatement::Expression(*plan)),
        decreases plan, 1int,
    {
        let ghost start = output@;
        match plan {
            ExpressionStatementForm::Async { value } => {
                let value_text = self.render_value(output, value);
                if !value_text.as_str().is_empty() {
                    write_line(output, value_text.as_str());
                }
            },
            ExpressionStatementForm::AsyncBlock { keyword, body } => {
                output.append(keyword.as_str());
                write_line(output, " func() {");
                self.render_lowered_block(output, body);
                output.append("}()\n");
            },
        }
        assert(output@ =~= start + stmt_text(LoweredStatement::Expression(*plan)));
    }

    fn render_let_statement(&self, output: &mut String, plan: &LetPlan)
        requires
            stmt_ok(LoweredStatement::Let(*plan)),
        ensures
            final(output)@ == old(output)@ + stmt_text(LoweredStatement::Let(*plan)),
        decreases plan, 1int,
    {
        let ghost start = output@;
        if let Some(declaration) = &plan.declaration {
            self.render_statement(output, declaration);
        }
        self.render_lowered_block(output, &plan.body);
        assert(output@ =~= start + stmt_text(LoweredStatement::Let(*plan)));
    }

    fn render_assign_statement(&self, output: &mut String, plan: &AssignForm)
        requires
            stmt_ok(LoweredStatement::Assign(*plan)),
        ensures
            final(output)@ == old(output)@ + stmt_text(LoweredStatement::Assign(*plan)),
        decreases plan, 1int,
    {
        let ghost start = output@;
        match plan {
            AssignForm::Compound { target_capture, target_str, kind } => {
                self.render_capture_statements(output, target_capture);
                match kind {
                    CompoundKind::Increment => {
                        output.append(target_str.as_str());
                        write_line(output, "++");
                    },
                    CompoundKind::Decrement => {
                        output.append(target_str.as_str());
                        write_line(output, "--");
                    },
                    CompoundKind::OpAssign { op_text, rhs, pinned_left } => {
                        let rhs_text = self.render_value(output, rhs);
                        output.append(target_str.as_str());
                        match pinned_left {
                            Some(left) => {
                                output.append(" = ");
                                output.append(left.as_str());
                                push_char(output, ' ');
                                output.append(op_text.as_str());
                                push_char(output, ' ');
                            },
                            None => {
                                push_char(output, ' ');
                                output.append(op_text.as_str());
                                output.append("= ");
                            },
                        }
                        write_line(output, rhs_text.as_str());
                    },
                }
            },
            AssignForm::Simple { target_capture, target_str, value } => {
                self.render_capture_statements(output, target_capture);
                let value_text = self.render_value(output, value);
                output.append(target_str.as_str());
                output.append(" = ");
                write_line(output, value_text.as_str());
            },
        }
        assert(output@ =~= start + stmt_text(LoweredStatement::Assign(*plan)));
    }

    /// Renders order-sensitive setup for an assignment target.
    fn render_capture_statements(&self, output: &mut String, statements: &Vec<LoweredStatement>)
        requires
            stmts_ok(statements@),
        ensures
            final(output)@ == old(output)@ + stmts_text(statements@),
        decreases statements, 1int,
    {
        self.render_stmts(output, statements);
    }

    fn render_return_statement(&self, output: &mut String, plan: &ReturnForm)
        requires
            stmt_ok(LoweredStatement::Return(*plan)),
        ensures
            final(output)@ == old(output)@ + stmt_text(LoweredStatement::Return(*plan)),
        decreases plan, 1int,
    {
        let ghost start = output@;
        match plan {
            ReturnForm::Plain { value } => {
                let value_text = self.render_value(output, value);
                output.append("return ");
                write_line(output, value_text.as_str());
            },
            ReturnForm::Unit { side_effect } => {
                if let Some(body) = side_effect {
                    self.render_lowered_block(output, body);
                }
                output.append("return\n");
            },
            ReturnForm::Multi { values } => {
                output.append("return ");
                let joined = join(values, ", ");
                write_line(output, joined.as_str());
            },
            ReturnForm::Body { body } => self.render_lowered_block(output, body),
        }
        assert(output@ =~= start + stmt_text(LoweredStatement::Return(*plan)));
    }

    fn render_transfer(&self, output: &mut String, keyword: &str, target: &LoopTransfer)
        requires
            transfer_ok(*target),
        ensures
            final(output)@ == old(output)@ + transfer_text(keyword@, *target),
    {
        let ghost start = output@;
        match target {
            LoopTransfer::Labeled(label) => {
                output.append(keyword);
                push_char(output, ' ');
                write_line(output, label.as_str());
            },
            _ => write_line(output, keyword),
        }
        assert(output@ =~= start + transfer_text(keyword@, *target));
    }

    fn render_break_value(&self, output: &mut String, plan: &BreakValuePlan)
        requires
            stmt_ok(LoweredStatement::BreakValue(*plan)),
        ensures
            final(output)@ == old(output)@ + stmt_text(LoweredStatement::BreakValue(*plan)),
        decreases plan, 1int,
    {
        let ghost start = output@;
        match plan {
            BreakValuePlan::Diverged { value } => {
                self.render_value(output, value);
            },
            BreakValuePlan::Transfer { value, action, target } => {
                let value_text = self.render_value(output, value);
                let ghost before_action = output@;
                match action {
                    BreakValueAction::UnitCallIntoResult { result_var } => {
                        if !value_text.as_str().is_empty() {
                            write_line(output, value_text.as_str());
                        }
                        output.append(result_var.as_str());
                        write_line(output, " = struct{}{}");
                    },
                    BreakValueAction::AssignToResult { result_var } => {
                        if !value_text.as_str().is_empty() {
                            output.append(result_var.as_str());
                            output.append(" = ");
                            write_line(output, value_text.as_str());
                        }
                    },
                    BreakValueAction::Discard => {
                        if !value_text.as_str().is_empty() {
                            output.append("_ = ");
                            write_line(output, value_text.as_str());
                        }
                    },
                }
                assert(output@ =~= before_action + break_action_text(*action, value_text@));
                self.render_transfer(output, "break", target);
            },
        }
        assert(output@ =~= start + stmt_text(LoweredStatement::BreakValue(*plan)));
    }

    /// Renders `const|var name ty = value`, after the value's setup.
    pub fn render_const_declaration(&self, output: &mut String, plan: &ConstPlan)
        requires
            value_ok(plan.value),
        ensures
            final(output)@ == old(output)@ + stmt_text(LoweredStatement::Const(*plan)),
        decreases plan, 1int,
    {
        let ghost start = output@;
        let value_text = self.render_value(output, &plan.value);
        let keyword = if plan.is_const {
            "const"
        } else {
            "var"
        };
        output.append(keyword);
        push_char(output, ' ');
        output.append(plan.name.as_str());
        push_char(output, ' ');
        output.append(plan.ty_str.as_str());
        output.append(" = ");
        write_line(output, value_text.as_str());
        assert(output@ =~= start + stmt_text(LoweredStatement::Const(*plan)));
    }

    fn render_loop(&self, output: &mut String, plan: &LoopPlan)
        requires
            plan.header@.len() > 0,
            stmts_ok(plan.prologue@),
            block_ok(plan.body),
        ensures
            final(output)@ == old(output)@ + stmt_text(LoweredStatement::Loop(*plan)),
        decreases plan, 1int,
    {
        let ghost start = output@;
        let prologue = self.render_setup(&plan.prologue);
        output.append(prologue.as_str());
        if let Some(label) = plan.kind.label() {
            output.append(label);
            write_line(output, ":");
        }
        proof {
            reveal_strlit(":");
        }
        assert(output@ =~= start + stmts_text(plan.prologue@) + label_text(plan.kind));
        output.append(plan.header.as_str());
        self.render_lowered_block(output, &plan.body);
        output.append("}\n");
        assert(output@ =~= start + stmt_text(LoweredStatement::Loop(*plan)));
    }

    fn render_if(&self, output: &mut String, plan: &IfPlan)
        requires
            if_ok(*plan),
        ensures
            final(output)@ == old(output)@ + if_text(*plan),
        decreases plan, 1int,
    {
        let ghost start = output@;
        let setup = self.render_setup(&plan.condition_setup);
        output.append(setup.as_str());
        output.append("if ");
        output.append(plan.condition.as_str());
        write_line(output, " {");
        self.render_lowered_block(output, &plan.then_body);
        self.render_else_arm(output, &plan.else_arm);
        assert(output@ =~= start + if_text(*plan));
    }

    fn render_else_arm(&self, output: &mut String, arm: &ElseArm)
        requires
            else_ok(*arm),
        ensures
            final(output)@ == old(output)@ + else_text(*arm),
        decreases arm, 1int,
    {
        let ghost start = output@;
        match arm {
            ElseArm::NoElse => output.append("}\n"),
            ElseArm::ElseIf(plan) => {
                if plan.condition_setup.len() > 0 {
                    output.append("} else {\n");
                    let setup = self.render_setup(&plan.condition_setup);
                    output.append(setup.as_str());
                    output.append("if ");
                    output.append(plan.condition.as_str());
                    write_line(output, " {");
                    self.render_lowered_block(output, &plan.then_body);
                    self.render_else_arm(output, &plan.else_arm);
                    output.append("}\n");
                } else {
                    output.append("} else if ");
                    output.append(plan.condition.as_str());
                    write_line(output, " {");
                    self.render_lowered_block(output, &plan.then_body);
                    self.render_else_arm(output, &plan.else_arm);
                }
            },
            ElseArm::Else { body, inline } => {
                if *inline {
                    output.append("}\n");
                    self.render_lowered_block(output, body);
                } else {
                    output.append("} else {\n");
                    self.render_lowered_block(output, body);
                    output.append("}\n");
                }
            },
        }
        assert(output@ =~= start + else_text(*arm));
    }

    /// Renders a value's setup statements and returns the value's text.
    pub fn render_value(&self, output: &mut String, plan: &ValuePlan) -> (r: String)
        requires
            value_ok(*plan),
        ensures
            final(output)@ == old(output)@ + setup_text(*plan),
            r@ == plan.expression.rendered@,
        decreases plan, 1int,
    {
        self.render_stmts(output, &plan.setup);
        plan.expression.rendered()
    }
}

/// Rendering is compositional: the text of two statement sequences one
/// after the other is the text of the first followed by the text of the
/// second.
pub proof fn law_render_concatenates(a: Seq<LoweredStatement>, b: Seq<LoweredStatement>)
    ensures
        stmts_text(a + b) == stmts_text(a) + stmts_text(b),
    decreases b.len(),
{
    if b.len() == 0 {
        assert(a + b =~= a);
        assert(stmts_text(b) =~= Seq::<char>::empty());
        assert(stmts_text(a) + stmts_text(b) =~= stmts_text(a));
    } else {
        let ab = a + b;
        let rest = b.subrange(0, b.len() - 1);
        assert(ab.subrange(0, ab.len() - 1) =~= a + rest);
        assert(ab[ab.len() - 1] == b[b.len() - 1]);
        law_render_concatenates(a, rest);
        assert(stmts_text(ab) == stmts_text(a + rest) + stmt_text(b[b.len() - 1]));
        assert(stmts_text(b) == stmts_text(rest) + stmt_text(b[b.len() - 1]));
        assert(stmts_text(ab) =~= stmts_text(a) + stmts_text(b));
    }
}

/// A compound step renders as Go's increment or decrement statement on its
/// target, after the statements that capture the target: `Increment` is
/// `target++` and `Decrement` is `target--`, so the two never render alike.
pub proof fn law_step_statements(capture: Vec<LoweredStatement>, target: String)
    ensures
        stmt_text(LoweredStatement::Assign(AssignForm::Compound { target_capture: capture, target_str: target, kind: CompoundKind::Increment }))
            == stmts_text(capture@) + target@ + "++\n"@,
        stmt_text(LoweredStatement::Assign(AssignForm::Compound { target_capture: capture, target_str: target, kind: CompoundKind::Decrement }))
            == stmts_text(capture@) + target@ + "--\n"@,
        stmt_text(LoweredStatement::Assign(AssignForm::Compound { target_capture: capture, target_str: target, kind: CompoundKind::Increment }))
            != stmt_text(LoweredStatement::Assign(AssignForm::Compound { target_capture: capture, target_str: target, kind: CompoundKind::Decrement })),
{
    reveal_strlit("++");
    reveal_strlit("--");
    reveal_strlit("++\n");
    reveal_strlit("--\n");
    let c = stmts_text(capture@);
    let inc = stmt_text(LoweredStatement::Assign(AssignForm::Compound { target_capture: capture, target_str: target, kind: CompoundKind::Increment }));
    let dec = stmt_text(LoweredStatement::Assign(AssignForm::Compound { target_capture: capture, target_str: target, kind: CompoundKind::Decrement }));
    assert(inc =~= c + target@ + "++\n"@);
    assert(dec =~= c + target@ + "--\n"@);
    assert(inc[(c.len() + target@.len()) as int] == '+');
    assert(dec[(c.len() + target@.len()) as int] == '-');
}

} // verus!
