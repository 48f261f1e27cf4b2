//! Planning binary operators over two planned operands: sequenced siblings
//! for ordinary operators, a guarded right-hand side for `&&` and `||`,
//! conversions for mixed numeric operands, and the complex product with an
//! imaginary literal.

use vstd::prelude::*;
use crate::go_type::conversion_text;
use crate::lowered::LoweredStatement;
use crate::render::{Renderer, stmts_ok, stmts_text};
use crate::staging::{capture_flags, count_set, effect_of, sequence_values, staged_setup, staged_values};
use crate::text::owned;
use crate::values::{
    binary_constant_kind, combined_effect, CaptureBoundary, EvaluationFacts, GoExpression,
    OperandForm, Stability, ValuePlan,
};

verus! {

/// `left operator right`, spaced.
pub open spec fn binary_text(left: Seq<char>, operator: Seq<char>, right: Seq<char>) -> Seq<char> {
    left + seq![' '] + operator + seq![' '] + right
}

/// The right-hand side of a short-circuit operator: its value, or, when it
/// needs setup, a function literal that runs the setup and returns the value
/// only once control reaches it.
pub open spec fn guarded_right_text(right: ValuePlan) -> Seq<char> {
    if right.setup@.len() == 0 {
        right.expression.rendered@
    } else {
        "func() bool {\n"@ + stmts_text(right.setup@) + "return "@ + right.expression.rendered@
            + "\n}()"@
    }
}

/// The two operands as siblings, sequenced left to right.
pub open spec fn operand_pair(left: ValuePlan, right: ValuePlan) -> Seq<ValuePlan> {
    seq![left, right]
}

/// The text an operand reads as after an optional conversion to `cast`.
pub open spec fn cast_text(cast: Option<String>, value: Seq<char>) -> Seq<char> {
    match cast {
        Some(t) => conversion_text(t@, value),
        None => value,
    }
}

/// `left operator right` over two planned operands. A short-circuit
/// operator keeps the left setup before the expression and guards the right
/// setup inside a function literal; any other operator sequences the two
/// operands as siblings (captures take `temp_names` in order).
pub fn binary_plan(
    left: ValuePlan,
    operator: &str,
    right: ValuePlan,
    short_circuit: bool,
    temp_names: &Vec<String>,
) -> (r: ValuePlan)
    requires
        short_circuit ==> stmts_ok(right.setup@),
        !short_circuit ==> count_set(
            capture_flags(operand_pair(left, right), CaptureBoundary::SiblingSequence),
            2,
        ) <= temp_names@.len(),
    ensures
        !r.expression.composite_literal,
        r.expression.syntax_form == OperandForm::Other,
        short_circuit ==> {
            &&& r.setup == left.setup
            &&& r.expression.rendered@ == binary_text(
                left.expression.rendered@,
                operator@,
                guarded_right_text(right),
            )
            &&& r.expression.contains_deferred_evaluation == (left.expression.contains_deferred_evaluation
                || right.expression.contains_deferred_evaluation || right.setup@.len() > 0)
            &&& r.expression.constant is None
            &&& r.evaluation == (EvaluationFacts {
                form: OperandForm::Other,
                stability: Stability::Observable,
                effect: combined_effect(left.evaluation.effect, right.evaluation.effect),
            })
        },
        !short_circuit ==> {
            let values = staged_values(
                operand_pair(left, right),
                CaptureBoundary::SiblingSequence,
                temp_names@,
            );
            &&& r.setup@ == staged_setup(
                operand_pair(left, right),
                CaptureBoundary::SiblingSequence,
                temp_names@,
            )
            &&& r.expression.rendered@ == binary_text(values[0].rendered@, operator@, values[1].rendered@)
            &&& r.expression.contains_deferred_evaluation == (values[0].contains_deferred_evaluation
                || values[1].contains_deferred_evaluation)
            &&& r.expression.constant == binary_constant_kind(values[0].constant, operator@, values[1].constant)
            &&& r.evaluation == (EvaluationFacts {
                form: OperandForm::Other,
                stability: Stability::Observable,
                effect: effect_of(operand_pair(left, right)),
            })
        },
{
    if short_circuit {
        let ValuePlan { setup: left_setup, expression: left_value, evaluation: left_facts } = left;
        let ValuePlan { setup: right_setup, expression: right_value, evaluation: right_facts } = right;
        let right_deferred = right_value.contains_deferred_evaluation || right_setup.len() > 0;
        let right_text = if right_setup.len() == 0 {
            right_value.rendered
        } else {
            let mut text = owned("func() bool {\n");
            text.append(Renderer.render_setup(&right_setup).as_str());
            text.append("return ");
            text.append(right_value.rendered.as_str());
            text.append("\n}()");
            text
        };
        let left_operand = GoExpression::opaque_with_deferred_evaluation(
            left_value.rendered,
            left_value.contains_deferred_evaluation,
        );
        let right_operand = GoExpression::opaque_with_deferred_evaluation(right_text, right_deferred);
        proof {
            reveal_strlit(" ");
        }
        let expression = GoExpression::binary(left_operand, operator, right_operand);
        return ValuePlan::computed(
            left_setup,
            expression,
            left_facts.effect.combine(right_facts.effect),
        );
    }
    let mut stages: Vec<ValuePlan> = Vec::new();
    stages.push(left);
    stages.push(right);
    assert(stages@ =~= operand_pair(left, right));
    let sequenced = sequence_values(stages, CaptureBoundary::SiblingSequence, temp_names);
    let crate::values::SequencedValues { setup, values, effect } = sequenced;
    let mut values = values;
    let second = values.remove(1);
    let first = values.remove(0);
    let expression = GoExpression::binary(first, operator, second);
    ValuePlan::computed(setup, expression, effect)
}

/// A binary operator over numeric operands of different types: both are
/// sequenced as siblings, then converted to `cast_left` / `cast_right`
/// where given.
pub fn numeric_binary_plan(
    left: ValuePlan,
    operator: &str,
    right: ValuePlan,
    cast_left: Option<String>,
    cast_right: Option<String>,
    temp_names: &Vec<String>,
) -> (r: ValuePlan)
    requires
        count_set(capture_flags(operand_pair(left, right), CaptureBoundary::SiblingSequence), 2)
            <= temp_names@.len(),
    ensures
        ({
            let values = staged_values(
                operand_pair(left, right),
                CaptureBoundary::SiblingSequence,
                temp_names@,
            );
            &&& r.setup@ == staged_setup(
                operand_pair(left, right),
                CaptureBoundary::SiblingSequence,
                temp_names@,
            )
            &&& r.expression.rendered@ == binary_text(
                cast_text(cast_left, values[0].rendered@),
                operator@,
                cast_text(cast_right, values[1].rendered@),
            )
            &&& r.evaluation == (EvaluationFacts {
                form: OperandForm::Other,
                stability: Stability::Observable,
                effect: effect_of(operand_pair(left, right)),
            })
        }),
        !r.expression.composite_literal,
        r.expression.syntax_form == OperandForm::Other,
{
    let mut stages: Vec<ValuePlan> = Vec::new();
    stages.push(left);
    stages.push(right);
    assert(stages@ =~= operand_pair(left, right));
    let sequenced = sequence_values(stages, CaptureBoundary::SiblingSequence, temp_names);
    let crate::values::SequencedValues { setup, values, effect } = sequenced;
    let mut values = values;
    let second = values.remove(1);
    let first = values.remove(0);
    let first = match cast_left {
        Some(t) => GoExpression::conversion(t, first),
        None => first,
    };
    let second = match cast_right {
        Some(t) => GoExpression::conversion(t, second),
        None => second,
    };
    let expression = GoExpression::binary(first, operator, second);
    ValuePlan::computed(setup, expression, effect)
}

/// `complex(0, value*coefficient)`: a float operand times an imaginary
/// literal. The operand's setup and evaluation facts carry over, as a
/// computed form.
pub fn imaginary_product_plan(operand: ValuePlan, coefficient: &str) -> (r: ValuePlan)
    ensures
        r.setup == operand.setup,
        r.expression.rendered@ == "complex(0, "@ + operand.expression.rendered@ + seq!['*']
            + coefficient@ + seq![')'],
        r.expression.contains_deferred_evaluation,
        r.expression.syntax_form == OperandForm::Call,
        r.evaluation == (EvaluationFacts { form: OperandForm::Other, ..operand.evaluation }),
{
    let ValuePlan { setup, expression, evaluation } = operand;
    let product = GoExpression::compact_binary(
        GoExpression::opaque_with_deferred_evaluation(expression.rendered, true),
        "*",
        GoExpression::literal(owned(coefficient)),
    );
    let mut arguments: Vec<GoExpression> = Vec::new();
    arguments.push(GoExpression::literal(owned("0")));
    arguments.push(product);
    let call = GoExpression::call(GoExpression::name(owned("complex")), arguments);
    proof {
        reveal_strlit("complex");
        reveal_strlit("complex(0, ");
        reveal_strlit("0");
        reveal_strlit("*");
        reveal_strlit(", ");
    }
    assert(call.rendered@ =~= "complex(0, "@ + expression.rendered@ + seq!['*'] + coefficient@ + seq![')']) by {
        assert(crate::values::renderings(arguments@) =~= seq!["0"@, product.rendered@]);
        assert(seq!["0"@, product.rendered@].drop_last() =~= seq!["0"@]);
        assert(crate::text::seq_join(seq!["0"@], ", "@) == "0"@);
        assert(seq!["0"@, product.rendered@].last() == product.rendered@);
        assert(crate::text::seq_join(seq!["0"@, product.rendered@], ", "@) == "0"@ + ", "@
            + product.rendered@);
        assert(product.rendered@ == expression.rendered@ + "*"@ + coefficient@);
        assert("complex(0, "@ =~= "complex"@ + seq!['('] + "0"@ + ", "@);
        assert("*"@ =~= seq!['*']);
    }
    ValuePlan {
        setup,
        expression: call,
        evaluation: EvaluationFacts { form: OperandForm::Other, ..evaluation },
    }
}

} // verus!
