//! Matching directly on a Go call's `(value, error)` outcome: once the arms
//! are lowered, which test the match becomes and how its branches nest.

use vstd::prelude::*;
use crate::lowered::{ElseArm, IfPlan, LoweredBlock, LoweredStatement, block_diverges, renders_empty};
use crate::names::{GeneratedPackage, package_path, package_qualifier};
use crate::packages::PackageRequirements;
use crate::text::owned;

verus! {

/// The guard that turns a nil error status into a real error before the
/// failure arm reads it.
pub open spec fn nil_status_guard(status: Seq<char>) -> Seq<char> {
    "if "@ + status + " == nil {\n"@ + status + " = errors.New(\"unexpected nil\")\n}\n"@
}

/// The `if` a fused `Ok`/`Err` match becomes: with no success body (the
/// value goes to a destination) or an empty one, a test of the failure
/// condition alone; otherwise a test of the success condition with the
/// failure body as its `else`.
pub open spec fn fused_if(
    ok_condition: String,
    err_condition: String,
    then_body: Option<LoweredBlock>,
    else_body: LoweredBlock,
) -> (String, LoweredBlock, ElseArm) {
    match then_body {
        None => (err_condition, else_body, ElseArm::NoElse),
        Some(t) => if renders_empty(t) && !renders_empty(else_body) {
            (err_condition, else_body, ElseArm::NoElse)
        } else {
            (
                ok_condition,
                t,
                if renders_empty(else_body) {
                    ElseArm::NoElse
                } else {
                    ElseArm::Else { body: else_body, inline: false }
                },
            )
        },
    }
}

/// Whether an `if` plan has no condition setup and the given condition and
/// branches.
pub open spec fn same_if(a: IfPlan, b: (String, LoweredBlock, ElseArm)) -> bool {
    &&& a.condition_setup@.len() == 0
    &&& a.condition == b.0
    &&& a.then_body == b.1
    &&& a.else_arm == b.2
}

/// The statements of a fused `Ok`/`Err` match, after the call was bound
/// (`bound`) and the arms lowered: the bound statements, then one `if` on the
/// outcome. When the failure arm reads a status that may be nil, its body
/// first replaces a nil status with an error, which needs the `errors`
/// package.
pub fn fused_result_plan(
    bound: Vec<LoweredStatement>,
    ok_condition: String,
    err_condition: String,
    status: &str,
    then_body: Option<LoweredBlock>,
    else_body: LoweredBlock,
    err_used: bool,
    has_nil_guard: bool,
    requirements: &mut PackageRequirements,
) -> (r: Vec<LoweredStatement>)
    requires
        old(requirements).wf(),
    ensures
        final(requirements).wf(),
        final(requirements)@ == if has_nil_guard && err_used {
            old(requirements)@.insert(
                (package_path(GeneratedPackage::Errors), package_qualifier(GeneratedPackage::Errors)),
            )
        } else {
            old(requirements)@
        },
        r@.len() == bound@.len() + 1,
        r@.drop_last() == bound@,
        r@.last() matches LoweredStatement::If(plan) && exists|else_final: LoweredBlock|
            {
                &&& same_if(plan, fused_if(ok_condition, err_condition, then_body, else_final))
                &&& if has_nil_guard && err_used {
                    else_final.statements@.len() == else_body.statements@.len() + 1
                        && else_final.statements@.drop_first() == else_body.statements@
                        && (else_final.statements@[0] matches LoweredStatement::RawGo(g) && g@
                        == nil_status_guard(status@))
                } else {
                    else_final == else_body
                }
            },
{
    let mut else_body = else_body;
    if has_nil_guard && err_used {
        requirements.require_generated(GeneratedPackage::Errors);
        let mut guard = owned("if ");
        guard.append(status);
        guard.append(" == nil {\n");
        guard.append(status);
        guard.append(" = errors.New(\"unexpected nil\")\n}\n");
        proof {
            reveal_strlit("if ");
            reveal_strlit(" == nil {\n");
            reveal_strlit(" = errors.New(\"unexpected nil\")\n}\n");
        }
        assert(guard@ =~= nil_status_guard(status@));
        let ghost before = else_body.statements@;
        else_body.statements.insert(0, LoweredStatement::RawGo(guard));
        assert(else_body.statements@.drop_first() =~= before);
    }
    let ghost else_final = else_body;
    let mut statements = bound;
    let plan = match then_body {
        None => IfPlan {
            condition_setup: Vec::new(),
            condition: err_condition,
            then_body: else_body,
            else_arm: ElseArm::NoElse,
        },
        Some(t) => {
            if t.renders_empty() && !else_body.renders_empty() {
                IfPlan {
                    condition_setup: Vec::new(),
                    condition: err_condition,
                    then_body: else_body,
                    else_arm: ElseArm::NoElse,
                }
            } else {
                IfPlan {
                    condition_setup: Vec::new(),
                    condition: ok_condition,
                    then_body: t,
                    else_arm: ElseArm::from_body(else_body, false),
                }
            }
        },
    };
    assert(same_if(plan, fused_if(ok_condition, err_condition, then_body, else_final)));
    let ghost b = statements@;
    statements.push(LoweredStatement::If(plan));
    assert(statements@.drop_last() =~= b);
    statements
}

/// Which outcome the selected arm of a partial match handles: a value, a
/// value with an error, or an error.
#[derive(Clone, Copy, PartialEq, Eq, Structural)]
pub enum PartialVariant {
    Success,
    Both,
    Failure,
}

/// A nil test on the value a call returns: the texts that test the value
/// name for non-nil and nil, and whether the test needs the prelude.
pub struct NilGuard {
    pub is_interface: bool,
    pub non_nil: String,
    pub is_nil: String,
}

/// The condition under which the selected arm runs.
pub open spec fn partial_condition(variant: PartialVariant, guard: Option<NilGuard>, error: Seq<char>) -> Seq<char> {
    match variant {
        PartialVariant::Success => error + " == nil"@,
        PartialVariant::Both => match guard {
            Some(g) => error + " != nil && "@ + g.non_nil@,
            None => error + " != nil"@,
        },
        PartialVariant::Failure => error + " != nil && "@ + guard.unwrap().is_nil@,
    }
}

/// Whether the selected arm's test reads the returned value.
pub open spec fn condition_needs_value(variant: PartialVariant, guard: Option<NilGuard>) -> bool {
    guard is Some && (variant is Both || variant is Failure)
}

/// The slots the call's results are bound to.
pub open spec fn result_slots(value: Option<String>, error: Seq<char>, reads_value: bool) -> Seq<char> {
    if reads_value {
        value.unwrap()@ + ", "@ + error
    } else {
        "_, "@ + error
    }
}

/// Whether the prelude is needed: the selected arm's test uses a nil guard
/// on an interface value.
pub open spec fn partial_needs_prelude(variant: PartialVariant, guard: Option<NilGuard>) -> bool {
    match guard {
        Some(g) => g.is_interface && (variant is Both || variant is Failure),
        None => false,
    }
}

/// The statements of a fused match that selects one outcome of a Go call
/// returning `(value, error)`, after the call (`call_setup`, `call`) and the
/// arms were lowered. An error arm on a value that cannot be nil always
/// runs; arms that render nothing keep only the call; otherwise the call's
/// results are bound and the selected arm runs under its condition, with
/// the fallback as `else`.
pub fn selective_partial_plan(
    call_setup: Vec<LoweredStatement>,
    call: &str,
    variant: PartialVariant,
    guard: Option<NilGuard>,
    value: Option<String>,
    error: &str,
    selected: LoweredBlock,
    value_used: bool,
    fallback: LoweredBlock,
    requirements: &mut PackageRequirements,
) -> (r: Vec<LoweredStatement>)
    requires
        old(requirements).wf(),
        (condition_needs_value(variant, guard) || value_used) ==> value is Some,
    ensures
        final(requirements).wf(),
        r@.take(call_setup@.len() as int) == call_setup@,
        variant is Failure && guard is None ==> {
            &&& final(requirements)@ == old(requirements)@
            &&& r@.len() == call_setup@.len() + 1 + fallback.statements@.len()
            &&& r@[call_setup@.len() as int] matches LoweredStatement::RawGo(t) && t@ == call@ + seq!['\n']
            &&& r@.skip(call_setup@.len() + 1int) == fallback.statements@
        },
        !(variant is Failure && guard is None) && renders_empty(selected) && renders_empty(fallback) ==> {
            &&& final(requirements)@ == old(requirements)@
            &&& r@.len() == call_setup@.len() + 1
            &&& r@.last() matches LoweredStatement::RawGo(t) && t@ == call@ + seq!['\n']
        },
        !(variant is Failure && guard is None) && !(renders_empty(selected) && renders_empty(fallback)) ==> {
            &&& final(requirements)@ == if partial_needs_prelude(variant, guard) {
                old(requirements)@.insert(
                    (package_path(GeneratedPackage::Prelude), package_qualifier(GeneratedPackage::Prelude)),
                )
            } else {
                old(requirements)@
            }
            &&& r@.len() == call_setup@.len() + 2
            &&& r@[call_setup@.len() as int] matches LoweredStatement::RawGo(t) && t@ == result_slots(
                value,
                error@,
                condition_needs_value(variant, guard) || value_used,
            ) + " := "@ + call@ + seq!['\n']
            &&& r@.last() matches LoweredStatement::If(plan) && plan.condition_setup@.len() == 0
                && plan.condition@ == partial_condition(variant, guard, error@) && plan.then_body
                == selected && plan.else_arm == if renders_empty(fallback) {
                ElseArm::NoElse
            } else {
                ElseArm::Else { body: fallback, inline: block_diverges(selected) }
            }
        },
{
    let mut statements = call_setup;
    let ghost s0 = statements@;
    let mut call_line = owned(call);
    call_line.append("\n");
    proof { reveal_strlit("\n"); }
    assert(call_line@ =~= call@ + seq!['\n']);
    if matches!(variant, PartialVariant::Failure) && guard.is_none() {
        statements.push(LoweredStatement::RawGo(call_line));
        let mut rest = fallback.statements;
        statements.append(&mut rest);
        assert(statements@.take(s0.len() as int) =~= s0);
        assert(statements@.skip(s0.len() + 1int) =~= fallback.statements@);
        return statements;
    }
    if selected.renders_empty() && fallback.renders_empty() {
        statements.push(LoweredStatement::RawGo(call_line));
        assert(statements@.take(s0.len() as int) =~= s0);
        return statements;
    }
    let needs_value = guard.is_some() && !matches!(variant, PartialVariant::Success);
    let reads_value = needs_value || value_used;
    let mut slots = if reads_value {
        let mut s = match &value {
            Some(v) => v.clone(),
            None => String::new(),
        };
        s.append(", ");
        s.append(error);
        s
    } else {
        let mut s = owned("_, ");
        s.append(error);
        s
    };
    proof {
        reveal_strlit(", ");
        reveal_strlit("_, ");
        reveal_strlit(" := ");
    }
    assert(slots@ =~= result_slots(value, error@, reads_value));
    slots.append(" := ");
    slots.append(call);
    slots.append("\n");
    let mut condition = owned(error);
    proof {
        reveal_strlit(" == nil");
        reveal_strlit(" != nil && ");
        reveal_strlit(" != nil");
    }
    match variant {
        PartialVariant::Success => {
            condition.append(" == nil");
        },
        PartialVariant::Both => {
            match &guard {
                Some(g) => {
                    if g.is_interface {
                        requirements.require_generated(GeneratedPackage::Prelude);
                    }
                    condition.append(" != nil && ");
                    condition.append(g.non_nil.as_str());
                },
                None => {
                    condition.append(" != nil");
                },
            }
        },
        PartialVariant::Failure => {
            match &guard {
                Some(g) => {
                    if g.is_interface {
                        requirements.require_generated(GeneratedPackage::Prelude);
                    }
                    condition.append(" != nil && ");
                    condition.append(g.is_nil.as_str());
                },
                None => {},
            }
        },
    }
    assert(condition@ =~= partial_condition(variant, guard, error@));
    statements.push(LoweredStatement::RawGo(slots));
    let selected_diverges = selected.ends_with_diverge();
    statements.push(
        LoweredStatement::If(
            IfPlan {
                condition_setup: Vec::new(),
                condition,
                then_body: selected,
                else_arm: ElseArm::from_body(fallback, selected_diverges),
            },
        ),
    );
    assert(statements@.take(s0.len() as int) =~= s0);
    statements
}

/// What the match reads of one of its `Ok`/`Err` arms.
pub struct ResultArm {
    /// The arm matches every value of its variant.
    pub is_catch_all: bool,
    /// The name the arm's pattern binds the payload to, when it binds it
    /// plainly.
    pub simple_payload: Option<String>,
    /// The Go name the payload is read through, when the arm uses it.
    pub payload_name: Option<String>,
    /// The body does nothing.
    pub body_is_noop: bool,
    /// The body is just this identifier.
    pub body_identifier: Option<String>,
    /// The body never finishes normally.
    pub diverges: bool,
}

/// Where a fused call's value goes.
pub enum CommaOkSlot {
    Named(String),
    Temp,
    Unused,
}

/// How a match on a call's `Ok`/`Err` outcome lowers.
pub enum FusedResultShape {
    /// It cannot test the call's outcome directly.
    Declined,
    /// Nothing reads the outcome: only the call stays.
    CallOnly,
    /// It binds the outcome, with the names the arms read it through.
    Fused { ok_name: Option<String>, err_name: Option<String>, slot: CommaOkSlot },
}

pub open spec fn opt_text_view(o: Option<String>) -> Option<Seq<char>> {
    match o {
        Some(s) => Some(s@),
        None => None,
    }
}

/// Whether the match can test the call's outcome directly, and how: an
/// arm that binds its payload must bind it plainly (an `Ok` arm may omit a
/// payload the call does not carry); a match that assigns a destination
/// must have a diverging `Err` arm and an `Ok` arm that yields its payload
/// unchanged; a statement whose arms read nothing and do nothing keeps only
/// the call.
pub open spec fn fused_result_shape_spec(
    ok: ResultArm,
    err: ResultArm,
    ok_payload_omitted: bool,
    carries_payload: bool,
    destination: Option<Seq<char>>,
    statement_place: bool,
) -> (bool, bool) {
    let ok_declines = !ok.is_catch_all && ok.simple_payload is None && !ok_payload_omitted;
    let err_declines = !err.is_catch_all && err.simple_payload is None;
    let ok_name = if ok.is_catch_all { None } else { ok.payload_name };
    let err_name = if err.is_catch_all { None } else { err.payload_name };
    let destination_declines = match destination {
        Some(_) => match ok.simple_payload {
            Some(p) => p@ == "_"@ || !carries_payload || ok.is_catch_all || err.is_catch_all
                || !err.diverges || opt_text_view(ok.body_identifier) != Some(p@),
            None => true,
        },
        None => false,
    };
    let declined = ok_declines || err_declines || destination_declines;
    let call_only = !declined && destination is None && statement_place && ok_name is None
        && err_name is None && ok.body_is_noop && err.body_is_noop;
    (declined, call_only)
}

pub fn fused_result_shape(
    ok: &ResultArm,
    err: &ResultArm,
    ok_payload_omitted: bool,
    carries_payload: bool,
    destination: Option<&str>,
    statement_place: bool,
) -> (r: FusedResultShape)
    ensures
        ({
            let dest = match destination {
                Some(d) => Some(d@),
                None => None,
            };
            let (declined, call_only) = fused_result_shape_spec(
                *ok,
                *err,
                ok_payload_omitted,
                carries_payload,
                dest,
                statement_place,
            );
            &&& declined <==> r is Declined
            &&& call_only <==> r is CallOnly
            &&& r matches FusedResultShape::Fused { ok_name, err_name, slot } ==> {
                &&& opt_text_view(ok_name) == (if ok.is_catch_all {
                    None
                } else {
                    opt_text_view(ok.payload_name)
                })
                &&& opt_text_view(err_name) == (if err.is_catch_all {
                    None
                } else {
                    opt_text_view(err.payload_name)
                })
                &&& match destination {
                    Some(d) => slot matches CommaOkSlot::Named(n) && n@ == d@,
                    None => if ok_name is Some {
                        slot is Temp
                    } else {
                        slot is Unused
                    },
                }
            }
        }),
{
    proof {
        reveal_strlit("_");
    }
    let ok_name = if ok.is_catch_all {
        None
    } else {
        if ok.simple_payload.is_none() && !ok_payload_omitted {
            return FusedResultShape::Declined;
        }
        ok.payload_name.clone()
    };
    let err_name = if err.is_catch_all {
        None
    } else {
        if err.simple_payload.is_none() {
            return FusedResultShape::Declined;
        }
        err.payload_name.clone()
    };
    match destination {
        Some(name) => {
            let payload = match &ok.simple_payload {
                Some(p) => p,
                None => {
                    return FusedResultShape::Declined;
                },
            };
            if crate::text::str_eq(payload.as_str(), "_") || !carries_payload || ok.is_catch_all
                || err.is_catch_all || !err.diverges {
                return FusedResultShape::Declined;
            }
            let same = match &ok.body_identifier {
                Some(b) => crate::text::str_eq(b.as_str(), payload.as_str()),
                None => false,
            };
            if !same {
                return FusedResultShape::Declined;
            }
            FusedResultShape::Fused { ok_name, err_name, slot: CommaOkSlot::Named(owned(name)) }
        },
        None => {
            if statement_place && ok_name.is_none() && err_name.is_none() && ok.body_is_noop
                && err.body_is_noop {
                return FusedResultShape::CallOnly;
            }
            let slot = if ok_name.is_some() {
                CommaOkSlot::Temp
            } else {
                CommaOkSlot::Unused
            };
            FusedResultShape::Fused { ok_name, err_name, slot }
        },
    }
}

} // verus!
