//! Placement of lowered values: tail panics, plain assignments, and the
//! peephole rewrites that fold a declared temp into `name := value`.

use vstd::prelude::*;
use crate::lowered::{AssignForm, ElseArm, LoweredBlock, LoweredStatement, PlacePlan, bound_name, renamed};
use crate::names::{is_plain_identifier, plain_identifier};
use crate::text::{owned, push_char, str_eq};
use crate::values::ValuePlan;

verus! {

/// `panic("unreachable")` after a branch construct in return position that
/// can fall through; Go would otherwise reject the missing tail return.
pub fn unreachable_panic_if_needed(place: &PlacePlan, is_exhaustive: bool) -> (r: Option<LoweredStatement>)
    ensures
        (*place is Return && !is_exhaustive) ==> r == Some(LoweredStatement::UnreachablePanic),
        !(*place is Return && !is_exhaustive) ==> r is None,
{
    if place.is_return() && !is_exhaustive {
        Some(LoweredStatement::UnreachablePanic)
    } else {
        None
    }
}

/// A `target = value` assignment with no lvalue capture.
pub fn simple_assign(target_var: &str, value: ValuePlan) -> (r: LoweredStatement)
    ensures
        r matches LoweredStatement::Assign(AssignForm::Simple { target_capture, target_str, value: v })
            && target_capture@.len() == 0 && target_str@ == target_var@ && v == value,
{
    LoweredStatement::Assign(
        AssignForm::Simple { target_capture: Vec::new(), target_str: owned(target_var), value },
    )
}

/// Binds the setup's trailing temp under `name` instead of copying it; `false`
/// when the last statement does not bind `temp`.
pub fn rebind_trailing_temp(statements: &mut Vec<LoweredStatement>, name: &str, temp: &str) -> (r: bool)
    ensures
        r == (old(statements)@.len() > 0 && bound_name(old(statements)@.last()) == Some(temp@)),
        r ==> final(statements)@.len() == old(statements)@.len() && final(statements)@.drop_last()
            == old(statements)@.drop_last() && renamed(
            old(statements)@.last(),
            final(statements)@.last(),
            name@,
        ),
        !r ==> *final(statements) == *old(statements),
{
    let n = statements.len();
    if n == 0 {
        return false;
    }
    if !statements[n - 1].binds_name(temp) {
        return false;
    }
    let mut last = statements.pop().unwrap();
    let renamed_it = last.rename_bound_name(name);
    statements.push(last);
    assert(statements@.drop_last() =~= old(statements)@.drop_last());
    renamed_it
}

/// The types for which `x := v` infers the same type as `var x T`.
pub open spec fn infers_same(go_type: Seq<char>) -> bool {
    go_type == "int"@ || go_type == "string"@ || go_type == "bool"@
}

/// The value of a body that is exactly one plain `name = value`.
pub open spec fn single_assign_value(body: LoweredBlock, name: Seq<char>) -> Option<Seq<char>> {
    if body.statements@.len() == 1 {
        match body.statements@[0] {
            LoweredStatement::Assign(AssignForm::Simple { target_capture, target_str, value }) => {
                if target_str@ == name && target_capture@.len() == 0 && value.setup@.len() == 0
                    && !value.expression.contains_deferred_evaluation {
                    Some(value.expression.rendered@)
                } else {
                    None
                }
            },
            _ => None,
        }
    } else {
        None
    }
}

/// `!c`, with the condition parenthesized unless it is a bare identifier.
pub open spec fn negated(condition: Seq<char>) -> Seq<char> {
    if plain_identifier(condition) {
        seq!['!'] + condition
    } else {
        "!("@ + condition + seq![')']
    }
}

/// An operand of a synthesized `&&`, parenthesized unless it is a bare
/// identifier.
pub open spec fn and_operand_text(operand: Seq<char>) -> Seq<char> {
    if plain_identifier(operand) {
        operand
    } else {
        seq!['('] + operand + seq![')']
    }
}

/// The single boolean expression equivalent to
/// `if condition { x = then } else { x = else }`, when one is known.
/// Two equal literal arms have none: it would drop the condition's
/// evaluation.
pub open spec fn boolean_join(condition: Seq<char>, then_value: Seq<char>, else_value: Seq<char>) -> Option<
    Seq<char>,
> {
    let t = "true"@;
    let f = "false"@;
    if then_value == t && else_value == f {
        Some(condition)
    } else if then_value == f && else_value == t {
        Some(negated(condition))
    } else if (then_value == t && else_value == t) || (then_value == f && else_value == f) {
        None
    } else if else_value == f {
        Some(and_operand_text(condition) + " && "@ + and_operand_text(then_value))
    } else if then_value == t {
        Some(condition + " || "@ + else_value)
    } else if then_value == f {
        Some(negated(condition) + " && "@ + and_operand_text(else_value))
    } else if else_value == t {
        Some(negated(condition) + " || "@ + then_value)
    } else {
        None
    }
}

/// The value `var name T` followed by its one filler collapses to, when the
/// two statements can become `name := value`.
pub open spec fn collapsed_value(statements: Seq<LoweredStatement>, name: Seq<char>) -> Option<Seq<char>> {
    if statements.len() != 2 {
        None
    } else {
        match statements[0] {
            LoweredStatement::VarDecl { name: declared, go_type, value: None } => {
                if declared@ != name {
                    None
                } else {
                    match statements[1] {
                        LoweredStatement::Assign(
                            AssignForm::Simple { target_capture, target_str, value },
                        ) => {
                            if infers_same(go_type@) && target_str@ == name && target_capture@.len() == 0
                                && value.setup@.len() == 0
                                && !value.expression.contains_deferred_evaluation {
                                Some(value.expression.rendered@)
                            } else {
                                None
                            }
                        },
                        LoweredStatement::If(plan) => {
                            if go_type@ != "bool"@ || plan.condition_setup@.len() > 0 {
                                None
                            } else {
                                match plan.else_arm {
                                    ElseArm::Else { body, .. } => match (
                                        single_assign_value(plan.then_body, name),
                                        single_assign_value(body, name),
                                    ) {
                                        (Some(t), Some(e)) => boolean_join(plan.condition@, t, e),
                                        _ => None,
                                    },
                                    _ => None,
                                }
                            }
                        },
                        _ => None,
                    }
                }
            },
            _ => None,
        }
    }
}

/// Collapses `var x T` plus the one statement that fills it into `x := value`
/// when `:=` infers `T` identically; otherwise leaves the statements as they
/// are.
pub fn collapse_declared_temp(statements: &mut Vec<LoweredStatement>, name: &str)
    ensures
        match collapsed_value(old(statements)@, name@) {
            Some(v) => final(statements)@.len() == 1 && (final(statements)@[0] matches LoweredStatement::TempBind {
                name: n,
                value: x,
            } && n@ == name@ && x@ == v),
            None => *final(statements) == *old(statements),
        },
{
    let value = match collapsed_temp_value(statements, name) {
        Some(v) => v,
        None => {
            return ;
        },
    };
    let mut replacement: Vec<LoweredStatement> = Vec::new();
    replacement.push(LoweredStatement::TempBind { name: owned(name), value });
    *statements = replacement;
}

fn collapsed_temp_value(statements: &Vec<LoweredStatement>, name: &str) -> (r: Option<String>)
    ensures
        match r {
            Some(v) => collapsed_value(statements@, name@) == Some(v@),
            None => collapsed_value(statements@, name@) is None,
        },
{
    if statements.len() != 2 {
        return None;
    }
    let go_type = match &statements[0] {
        LoweredStatement::VarDecl { name: declared, go_type, value: None } => {
            if !str_eq(declared.as_str(), name) {
                return None;
            }
            go_type
        },
        _ => {
            return None;
        },
    };
    match &statements[1] {
        LoweredStatement::Assign(AssignForm::Simple { target_capture, target_str, value }) => {
            let inferable = str_eq(go_type.as_str(), "int") || str_eq(go_type.as_str(), "string")
                || str_eq(go_type.as_str(), "bool");
            if !inferable || !str_eq(target_str.as_str(), name) || target_capture.len() != 0
                || value.setup.len() != 0 || value.expression.contains_deferred_evaluation() {
                return None;
            }
            Some(value.expression.rendered())
        },
        LoweredStatement::If(plan) => {
            if !str_eq(go_type.as_str(), "bool") || plan.condition_setup.len() != 0 {
                return None;
            }
            let else_body = match &plan.else_arm {
                ElseArm::Else { body, .. } => body,
                _ => {
                    return None;
                },
            };
            let then_value = match single_simple_assign_value(&plan.then_body, name) {
                Some(v) => v,
                None => {
                    return None;
                },
            };
            let else_value = match single_simple_assign_value(else_body, name) {
                Some(v) => v,
                None => {
                    return None;
                },
            };
            join_boolean_branches(plan.condition.as_str(), then_value.as_str(), else_value.as_str())
        },
        _ => None,
    }
}

/// The rendered value of a body that is exactly one plain `name = value`.
pub fn single_simple_assign_value(body: &LoweredBlock, name: &str) -> (r: Option<String>)
    ensures
        match r {
            Some(v) => single_assign_value(*body, name@) == Some(v@),
            None => single_assign_value(*body, name@) is None,
        },
{
    if body.statements.len() != 1 {
        return None;
    }
    match &body.statements[0] {
        LoweredStatement::Assign(AssignForm::Simple { target_capture, target_str, value }) => {
            if str_eq(target_str.as_str(), name) && target_capture.len() == 0 && value.setup.len() == 0
                && !value.expression.contains_deferred_evaluation() {
                Some(value.expression.rendered())
            } else {
                None
            }
        },
        _ => None,
    }
}

/// Joins the values of a two-armed boolean assignment into one expression.
pub fn join_boolean_branches(condition: &str, then_value: &str, else_value: &str) -> (r: Option<String>)
    ensures
        match r {
            Some(v) => boolean_join(condition@, then_value@, else_value@) == Some(v@),
            None => boolean_join(condition@, then_value@, else_value@) is None,
        },
{
    let then_true = str_eq(then_value, "true");
    let then_false = str_eq(then_value, "false");
    let else_true = str_eq(else_value, "true");
    let else_false = str_eq(else_value, "false");
    if then_true && else_false {
        Some(owned(condition))
    } else if then_false && else_true {
        Some(negate_condition(condition))
    } else if (then_true && else_true) || (then_false && else_false) {
        None
    } else if else_false {
        let mut r = and_operand(condition);
        r.append(" && ");
        r.append(and_operand(then_value).as_str());
        Some(r)
    } else if then_true {
        let mut r = owned(condition);
        r.append(" || ");
        r.append(else_value);
        Some(r)
    } else if then_false {
        let mut r = negate_condition(condition);
        r.append(" && ");
        r.append(and_operand(else_value).as_str());
        Some(r)
    } else if else_true {
        let mut r = negate_condition(condition);
        r.append(" || ");
        r.append(then_value);
        Some(r)
    } else {
        None
    }
}

/// `!condition`, parenthesizing anything but a bare identifier.
pub fn negate_condition(condition: &str) -> (r: String)
    ensures
        r@ == negated(condition@),
{
    let mut r = String::new();
    push_char(&mut r, '!');
    if is_plain_identifier(condition) {
        r.append(condition);
    } else {
        push_char(&mut r, '(');
        r.append(condition);
        push_char(&mut r, ')');
    }
    proof {
        reveal_strlit("!(");
    }
    assert(r@ =~= negated(condition@));
    r
}

/// Parenthesizes a synthesized `&&` operand, keeping bare identifiers bare.
pub fn and_operand(operand: &str) -> (r: String)
    ensures
        r@ == and_operand_text(operand@),
{
    if is_plain_identifier(operand) {
        owned(operand)
    } else {
        let mut r = String::new();
        push_char(&mut r, '(');
        r.append(operand);
        push_char(&mut r, ')');
        r
    }
}

} // verus!
