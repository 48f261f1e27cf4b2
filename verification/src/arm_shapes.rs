//! Recognising the match shapes that can test a call's outcome directly:
//! `Ok`/`Err` arms (in either order, or with a wildcard), and one selected
//! `Partial` outcome with a wildcard fallback.

use vstd::prelude::*;
use crate::fused::PartialVariant;
use crate::text::{owned, str_eq};

verus! {

/// A field of a variant pattern, as far as fusing reads it.
pub enum FieldPattern {
    Identifier(String),
    WildCard,
    /// Any other pattern: nested, literal, unit, ...
    Other,
}

/// The pattern of a match arm, as far as fusing reads it.
pub enum ArmPattern {
    WildCard,
    Variant { identifier: String, fields: Vec<FieldPattern>, rest: bool },
    Other,
}

/// A match arm: its pattern and whether it has a guard.
pub struct ArmShape {
    pub pattern: ArmPattern,
    pub has_guard: bool,
}

/// The name a field pattern binds: its identifier, or `_` for a wildcard.
pub open spec fn field_binding_spec(f: FieldPattern) -> Option<Seq<char>> {
    match f {
        FieldPattern::Identifier(n) => Some(n@),
        FieldPattern::WildCard => Some("_"@),
        FieldPattern::Other => None,
    }
}

pub fn field_binding(f: &FieldPattern) -> (r: Option<String>)
    ensures
        match r {
            Some(n) => field_binding_spec(*f) == Some(n@),
            None => field_binding_spec(*f) is None,
        },
{
    proof {
        reveal_strlit("_");
    }
    match f {
        FieldPattern::Identifier(n) => Some(n.clone()),
        FieldPattern::WildCard => Some(owned("_")),
        FieldPattern::Other => None,
    }
}

/// The name a one-field variant pattern binds its payload to.
pub open spec fn simple_payload_spec(p: ArmPattern) -> Option<Seq<char>> {
    match p {
        ArmPattern::Variant { fields, .. } => if fields@.len() == 1 {
            field_binding_spec(fields@[0])
        } else {
            None
        },
        _ => None,
    }
}

pub fn simple_payload_binding(p: &ArmPattern) -> (r: Option<String>)
    ensures
        match r {
            Some(n) => simple_payload_spec(*p) == Some(n@),
            None => simple_payload_spec(*p) is None,
        },
{
    match p {
        ArmPattern::Variant { fields, .. } => if fields.len() == 1 {
            field_binding(&fields[0])
        } else {
            None
        },
        _ => None,
    }
}

/// What an arm of a `Result` match is: `Ok`, `Err`, or a wildcard.
#[derive(Clone, Copy, PartialEq, Eq, Structural)]
pub enum ResultArmKind {
    Success,
    Failure,
    Wild,
}

pub open spec fn result_arm_kind_spec(p: ArmPattern) -> Option<ResultArmKind> {
    match p {
        ArmPattern::WildCard => Some(ResultArmKind::Wild),
        ArmPattern::Variant { identifier, rest, .. } => if rest {
            None
        } else if identifier@ == "Ok"@ || identifier@ == "Result.Ok"@ {
            Some(ResultArmKind::Success)
        } else if identifier@ == "Err"@ || identifier@ == "Result.Err"@ {
            Some(ResultArmKind::Failure)
        } else {
            None
        },
        ArmPattern::Other => None,
    }
}

fn result_arm_kind(p: &ArmPattern) -> (r: Option<ResultArmKind>)
    ensures
        r == result_arm_kind_spec(*p),
{
    match p {
        ArmPattern::WildCard => Some(ResultArmKind::Wild),
        ArmPattern::Variant { identifier, rest, .. } => {
            if *rest {
                None
            } else if str_eq(identifier.as_str(), "Ok") || str_eq(identifier.as_str(), "Result.Ok") {
                Some(ResultArmKind::Success)
            } else if str_eq(identifier.as_str(), "Err") || str_eq(identifier.as_str(), "Result.Err") {
                Some(ResultArmKind::Failure)
            } else {
                None
            }
        },
        ArmPattern::Other => None,
    }
}

/// Which arm handles `Ok` and which `Err`, and whether each is a wildcard.
#[derive(Clone, Copy, PartialEq, Eq, Structural)]
pub struct ResultArmsPick {
    pub ok: usize,
    pub ok_catch_all: bool,
    pub err: usize,
    pub err_catch_all: bool,
}

/// Two unguarded arms, `Ok` and `Err` in either order, or one of them
/// followed by a wildcard, which then stands for the other.
pub open spec fn classify_result_spec(arms: Seq<ArmShape>) -> Option<ResultArmsPick> {
    if arms.len() != 2 || arms[0].has_guard || arms[1].has_guard {
        None
    } else {
        match (result_arm_kind_spec(arms[0].pattern), result_arm_kind_spec(arms[1].pattern)) {
            (Some(ResultArmKind::Success), Some(ResultArmKind::Failure)) => Some(
                ResultArmsPick { ok: 0, ok_catch_all: false, err: 1, err_catch_all: false },
            ),
            (Some(ResultArmKind::Failure), Some(ResultArmKind::Success)) => Some(
                ResultArmsPick { ok: 1, ok_catch_all: false, err: 0, err_catch_all: false },
            ),
            (Some(ResultArmKind::Success), Some(ResultArmKind::Wild)) => Some(
                ResultArmsPick { ok: 0, ok_catch_all: false, err: 1, err_catch_all: true },
            ),
            (Some(ResultArmKind::Failure), Some(ResultArmKind::Wild)) => Some(
                ResultArmsPick { ok: 1, ok_catch_all: true, err: 0, err_catch_all: false },
            ),
            _ => None,
        }
    }
}

pub fn classify_result_arms(arms: &Vec<ArmShape>) -> (r: Option<ResultArmsPick>)
    ensures
        r == classify_result_spec(arms@),
{
    if arms.len() != 2 || arms[0].has_guard || arms[1].has_guard {
        return None;
    }
    let first = result_arm_kind(&arms[0].pattern);
    let second = result_arm_kind(&arms[1].pattern);
    match (first, second) {
        (Some(ResultArmKind::Success), Some(ResultArmKind::Failure)) => Some(
            ResultArmsPick { ok: 0, ok_catch_all: false, err: 1, err_catch_all: false },
        ),
        (Some(ResultArmKind::Failure), Some(ResultArmKind::Success)) => Some(
            ResultArmsPick { ok: 1, ok_catch_all: false, err: 0, err_catch_all: false },
        ),
        (Some(ResultArmKind::Success), Some(ResultArmKind::Wild)) => Some(
            ResultArmsPick { ok: 0, ok_catch_all: false, err: 1, err_catch_all: true },
        ),
        (Some(ResultArmKind::Failure), Some(ResultArmKind::Wild)) => Some(
            ResultArmsPick { ok: 1, ok_catch_all: true, err: 0, err_catch_all: false },
        ),
        _ => None,
    }
}

/// The selected outcome of a selective `Partial` match and the names its
/// pattern binds the value and the error to.
pub struct SelectivePartialArms {
    pub variant: PartialVariant,
    pub value_binding: Option<String>,
    pub error_binding: Option<String>,
}

/// The variant a selected `Partial` arm names, when it has the right number
/// of fields.
pub open spec fn partial_variant_spec(identifier: Seq<char>, field_count: nat) -> Option<PartialVariant> {
    if (identifier == "Ok"@ || identifier == "Partial.Ok"@) && field_count == 1 {
        Some(PartialVariant::Success)
    } else if (identifier == "Both"@ || identifier == "Partial.Both"@) && field_count == 2 {
        Some(PartialVariant::Both)
    } else if (identifier == "Err"@ || identifier == "Partial.Err"@) && field_count == 1 {
        Some(PartialVariant::Failure)
    } else {
        None
    }
}

/// Two unguarded arms: one `Partial` variant whose fields all bind plainly,
/// then a wildcard. The value binding of `Ok`/`Both` and the error binding
/// of `Both`/`Err` come from its fields.
pub open spec fn classify_selective_spec(arms: Seq<ArmShape>) -> Option<(PartialVariant, Option<Seq<char>>, Option<Seq<char>>)> {
    if arms.len() != 2 || arms[0].has_guard || arms[1].has_guard || !(arms[1].pattern is WildCard) {
        None
    } else {
        match arms[0].pattern {
            ArmPattern::Variant { identifier, fields, rest } => if rest {
                None
            } else {
                match partial_variant_spec(identifier@, fields@.len()) {
                    None => None,
                    Some(PartialVariant::Both) => match (
                        field_binding_spec(fields@[0]),
                        field_binding_spec(fields@[1]),
                    ) {
                        (Some(v), Some(e)) => Some((PartialVariant::Both, Some(v), Some(e))),
                        _ => None,
                    },
                    Some(variant) => match field_binding_spec(fields@[0]) {
                        Some(b) => if variant is Success {
                            Some((variant, Some(b), None))
                        } else {
                            Some((variant, None, Some(b)))
                        },
                        None => None,
                    },
                }
            },
            _ => None,
        }
    }
}

pub open spec fn opt_view(o: Option<String>) -> Option<Seq<char>> {
    match o {
        Some(s) => Some(s@),
        None => None,
    }
}

pub fn classify_selective_partial_arms(arms: &Vec<ArmShape>) -> (r: Option<SelectivePartialArms>)
    ensures
        match r {
            Some(s) => classify_selective_spec(arms@) == Some(
                (s.variant, opt_view(s.value_binding), opt_view(s.error_binding)),
            ),
            None => classify_selective_spec(arms@) is None,
        },
{
    if arms.len() != 2 || arms[0].has_guard || arms[1].has_guard {
        return None;
    }
    if !matches!(arms[1].pattern, ArmPattern::WildCard) {
        return None;
    }
    let (identifier, fields) = match &arms[0].pattern {
        ArmPattern::Variant { identifier, fields, rest } => {
            if *rest {
                return None;
            }
            (identifier, fields)
        },
        _ => {
            return None;
        },
    };
    let id = identifier.as_str();
    let n = fields.len();
    let variant = if (str_eq(id, "Ok") || str_eq(id, "Partial.Ok")) && n == 1 {
        PartialVariant::Success
    } else if (str_eq(id, "Both") || str_eq(id, "Partial.Both")) && n == 2 {
        PartialVariant::Both
    } else if (str_eq(id, "Err") || str_eq(id, "Partial.Err")) && n == 1 {
        PartialVariant::Failure
    } else {
        return None;
    };
    match variant {
        PartialVariant::Both => {
            let value = match field_binding(&fields[0]) {
                Some(v) => v,
                None => {
                    return None;
                },
            };
            let error = match field_binding(&fields[1]) {
                Some(e) => e,
                None => {
                    return None;
                },
            };
            Some(SelectivePartialArms { variant, value_binding: Some(value), error_binding: Some(error) })
        },
        PartialVariant::Success => match field_binding(&fields[0]) {
            Some(b) => Some(SelectivePartialArms { variant, value_binding: Some(b), error_binding: None }),
            None => None,
        },
        PartialVariant::Failure => match field_binding(&fields[0]) {
            Some(b) => Some(SelectivePartialArms { variant, value_binding: None, error_binding: Some(b) }),
            None => None,
        },
    }
}

} // verus!
