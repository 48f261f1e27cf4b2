//! Planning leaf operands and member access from what their parts already
//! planned: which plan a leaf becomes, and how a `.member` access combines
//! its receiver with the member's resolution.

use vstd::prelude::*;
use crate::lowered::LoweredStatement;
use crate::text::owned;
use crate::values::{
    EvaluationEffect, EvaluationFacts, GoExpression, OperandForm, Stability, ValuePlan,
    identifier_facts,
};

verus! {

/// A leaf operand, with what its own planner produced.
pub enum OperandLeaf {
    /// A literal, a call, or a construct lowered to a temporary: its plan.
    Planned(ValuePlan),
    /// An identifier read as `expression` with the given stability; an
    /// adapter for a tagged function reference brings setup and the text
    /// that replaces the read.
    Identifier {
        expression: GoExpression,
        stability: Stability,
        adapter_setup: Vec<LoweredStatement>,
        adapter_value: String,
    },
    /// Go source written verbatim, or an emitted function literal.
    Verbatim(String),
    /// A function declared without a body.
    Bodyless,
    Unit,
    /// A `return` in operand position: the lowered return statement.
    Return(LoweredStatement),
    /// An assignment in operand position: its lowered statements.
    Assignment(Vec<LoweredStatement>),
    /// An assertion in operand position: its lowered statement.
    Assert(LoweredStatement),
}

/// The plan of the unit value, and of statement-like operands: `struct{}{}`.
pub open spec fn unit_rendered() -> Seq<char> {
    "struct{}{}"@
}

/// An opaque computed expression with the given text.
pub open spec fn opaque_text(e: GoExpression, text: Seq<char>) -> bool {
    &&& e.rendered@ == text
    &&& !e.contains_deferred_evaluation
    &&& !e.composite_literal
    &&& e.syntax_form == OperandForm::Other
    &&& e.constant is None
}

/// The facts of a computed value with no effect.
pub open spec fn computed_facts() -> EvaluationFacts {
    EvaluationFacts { form: OperandForm::Other, stability: Stability::Observable, effect: EvaluationEffect::Pure }
}

/// The plan a leaf operand becomes.
pub fn operand_leaf_plan(leaf: OperandLeaf) -> (r: ValuePlan)
    ensures
        match leaf {
            OperandLeaf::Planned(p) => r == p,
            OperandLeaf::Identifier { expression, stability, adapter_setup, adapter_value } => if adapter_setup@.len() == 0 {
                r.setup@.len() == 0 && r.expression == expression && r.evaluation == identifier_facts(
                    expression.syntax_form,
                    stability,
                )
            } else {
                &&& r.setup@ == adapter_setup@
                &&& r.expression == GoExpression {
                    rendered: adapter_value,
                    contains_deferred_evaluation: expression.contains_deferred_evaluation,
                    composite_literal: false,
                    syntax_form: OperandForm::Other,
                    constant: None,
                }
                &&& r.evaluation == EvaluationFacts {
                    form: OperandForm::Other,
                    ..identifier_facts(expression.syntax_form, stability)
                }
            },
            OperandLeaf::Verbatim(text) => r.setup@.len() == 0 && r.expression
                == GoExpression::opaque_spec(text) && r.evaluation == (EvaluationFacts {
                form: OperandForm::Other,
                stability: Stability::Observable,
                effect: EvaluationEffect::Pure,
            }),
            OperandLeaf::Bodyless => r.setup@.len() == 0 && opaque_text(r.expression, Seq::empty())
                && r.evaluation == computed_facts(),
            OperandLeaf::Unit => r.setup@.len() == 0 && r.expression.rendered@ == unit_rendered()
                && r.expression.composite_literal && !r.expression.contains_deferred_evaluation
                && r.expression.syntax_form == OperandForm::Literal && r.expression.constant is None
                && r.evaluation == computed_facts(),
            OperandLeaf::Return(statement) => r.setup@ == seq![statement] && opaque_text(
                r.expression,
                Seq::empty(),
            ) && r.evaluation == computed_facts(),
            OperandLeaf::Assignment(setup) => r.setup == setup && opaque_text(r.expression, unit_rendered())
                && r.evaluation == computed_facts(),
            OperandLeaf::Assert(statement) => r.setup@ == seq![statement] && opaque_text(
                r.expression,
                unit_rendered(),
            ) && r.evaluation == computed_facts(),
        },
{
    proof {
        reveal_strlit("struct{}{}");
    }
    match leaf {
        OperandLeaf::Planned(plan) => plan,
        OperandLeaf::Identifier { expression, stability, adapter_setup, adapter_value } => {
            let plan = ValuePlan::from_identifier_expression(expression, stability);
            if adapter_setup.len() == 0 {
                plan
            } else {
                let deferred = plan.expression.contains_deferred_evaluation;
                let evaluation = plan.evaluation;
                ValuePlan {
                    setup: adapter_setup,
                    expression: GoExpression::opaque_with_deferred_evaluation(adapter_value, deferred),
                    evaluation: EvaluationFacts { form: OperandForm::Other, ..evaluation },
                }
            }
        },
        OperandLeaf::Verbatim(text) => ValuePlan::opaque(text),
        OperandLeaf::Bodyless => ValuePlan::opaque(String::new()),
        OperandLeaf::Unit => ValuePlan::computed(
            Vec::new(),
            GoExpression::composite_literal(owned("struct{}{}"), false),
            EvaluationEffect::Pure,
        ),
        OperandLeaf::Return(statement) => {
            let mut setup: Vec<LoweredStatement> = Vec::new();
            setup.push(statement);
            ValuePlan::computed(setup, GoExpression::opaque(String::new()), EvaluationEffect::Pure)
        },
        OperandLeaf::Assignment(setup) => ValuePlan::computed(
            setup,
            GoExpression::opaque(owned("struct{}{}")),
            EvaluationEffect::Pure,
        ),
        OperandLeaf::Assert(statement) => {
            let mut setup: Vec<LoweredStatement> = Vec::new();
            setup.push(statement);
            ValuePlan::computed(setup, GoExpression::opaque(owned("struct{}{}")), EvaluationEffect::Pure)
        },
    }
}

/// The receiver of a member access: an imported package (read through the
/// qualifier its import got), or a planned value.
pub enum DotReceiver {
    Package(String),
    Value(ValuePlan),
}

/// How the member of a `.member` access resolved, given the receiver's text.
pub struct DotMember {
    /// The whole access when it resolves without the receiver.
    pub pre_receiver: Option<String>,
    /// The access when the member is a tuple field, and whether reading it
    /// converts a newtype.
    pub tuple_member: Option<String>,
    pub newtype_conversion: bool,
    /// The Go name of the field.
    pub field: String,
    /// A nullable field read: its setup and the text of the read.
    pub nullable: Option<(Vec<LoweredStatement>, String)>,
    /// The selector with the explicit type arguments a cross-package generic
    /// member needs, when it needs any.
    pub with_type_args: Option<String>,
}

/// The plan of the receiver.
pub open spec fn receiver_plan(receiver: DotReceiver) -> (Seq<LoweredStatement>, Seq<char>, bool, EvaluationEffect) {
    match receiver {
        DotReceiver::Package(q) => (Seq::empty(), q@, false, EvaluationEffect::Pure),
        DotReceiver::Value(p) => (
            p.setup@,
            p.expression.rendered@,
            p.expression.contains_deferred_evaluation,
            p.evaluation.effect,
        ),
    }
}

/// A `.member` access: the member's own resolution when it needs no
/// receiver; otherwise the receiver's setup and effect, and the first of a
/// tuple field, a nullable field read, or a selector (with type arguments
/// when the member needs them).
pub fn dot_access_plan(receiver: DotReceiver, member: DotMember) -> (r: ValuePlan)
    ensures
        ({
            let (setup, base, deferred, effect) = receiver_plan(receiver);
            match member.pre_receiver {
                Some(s) => r.setup@.len() == 0 && r.expression == GoExpression::opaque_spec(s)
                    && r.evaluation == computed_facts(),
                None => {
                    &&& r.expression.syntax_form == OperandForm::Other
                    &&& !r.expression.composite_literal
                    &&& r.expression.constant is None
                    &&& r.evaluation == (EvaluationFacts {
                        form: OperandForm::Other,
                        stability: Stability::Observable,
                        effect,
                    })
                    &&& match member.tuple_member {
                        Some(t) => r.setup@ == setup && r.expression.rendered == t
                            && r.expression.contains_deferred_evaluation == (deferred
                            || member.newtype_conversion),
                        None => match member.nullable {
                            Some((extra, read)) => r.setup@ == setup + extra@
                                && r.expression == GoExpression::opaque_spec(read),
                            None => {
                                &&& r.setup@ == setup
                                &&& r.expression.contains_deferred_evaluation == deferred
                                &&& match member.with_type_args {
                                    Some(a) => r.expression.rendered == a,
                                    None => r.expression.rendered@ == base + seq!['.']
                                        + member.field@,
                                }
                            },
                        },
                    }
                },
            }
        }),
{
    let DotMember { pre_receiver, tuple_member, newtype_conversion, field, nullable, with_type_args } =
        member;
    if let Some(s) = pre_receiver {
        return ValuePlan::computed(Vec::new(), GoExpression::opaque(s), EvaluationEffect::Pure);
    }
    let base_plan = match receiver {
        DotReceiver::Package(q) => ValuePlan::captured(Vec::new(), q),
        DotReceiver::Value(p) => p,
    };
    let effect = base_plan.evaluation.effect;
    let deferred = base_plan.expression.contains_deferred_evaluation;
    let ValuePlan { setup, expression: base_expression, evaluation: _ } = base_plan;
    let mut setup = setup;
    let base = base_expression.rendered;
    if let Some(t) = tuple_member {
        return ValuePlan::computed(
            setup,
            GoExpression::opaque_with_deferred_evaluation(t, deferred || newtype_conversion),
            effect,
        );
    }
    if let Some((extra, read)) = nullable {
        let mut extra = extra;
        setup.append(&mut extra);
        return ValuePlan::computed(setup, GoExpression::opaque(read), effect);
    }
    let selector = GoExpression::selector(GoExpression::opaque_with_deferred_evaluation(base, deferred), field);
    let expression = match with_type_args {
        Some(a) => GoExpression::opaque_with_deferred_evaluation(a, deferred),
        None => selector,
    };
    ValuePlan::computed(setup, expression, effect)
}

} // verus!
