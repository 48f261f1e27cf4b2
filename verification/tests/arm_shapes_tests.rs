use emit::arm_shapes::{
    classify_result_arms, classify_selective_partial_arms, simple_payload_binding, ArmPattern, ArmShape,
    FieldPattern,
};
use emit::fused::PartialVariant;

fn arm(pattern: ArmPattern) -> ArmShape {
    ArmShape { pattern, has_guard: false }
}

fn variant(identifier: &str, fields: Vec<FieldPattern>) -> ArmPattern {
    ArmPattern::Variant { identifier: identifier.to_string(), fields, rest: false }
}

fn ident(name: &str) -> FieldPattern {
    FieldPattern::Identifier(name.to_string())
}

#[test]
fn selective_partial_classifier_rejects_nested_payload_pattern() {
    let arms = vec![arm(variant("Partial.Ok", vec![FieldPattern::Other])), arm(ArmPattern::WildCard)];
    assert!(classify_selective_partial_arms(&arms).is_none());
}

#[test]
fn selective_partial_both_binds_value_and_error() {
    let arms = vec![arm(variant("Both", vec![ident("v"), FieldPattern::WildCard])), arm(ArmPattern::WildCard)];
    let picked = classify_selective_partial_arms(&arms).unwrap();
    assert!(picked.variant == PartialVariant::Both);
    assert_eq!(picked.value_binding, Some("v".to_string()));
    assert_eq!(picked.error_binding, Some("_".to_string()));
}

#[test]
fn result_arms_in_either_order() {
    let arms = vec![arm(variant("Err", vec![ident("e")])), arm(variant("Result.Ok", vec![ident("v")]))];
    let pick = classify_result_arms(&arms).unwrap();
    assert_eq!((pick.ok, pick.err), (1, 0));
    assert!(!pick.ok_catch_all && !pick.err_catch_all);
    let wild = vec![arm(variant("Err", vec![ident("e")])), arm(ArmPattern::WildCard)];
    let pick = classify_result_arms(&wild).unwrap();
    assert_eq!((pick.ok, pick.err), (1, 0));
    assert!(pick.ok_catch_all);
    let guarded = vec![ArmShape { pattern: variant("Ok", vec![ident("v")]), has_guard: true }, arm(ArmPattern::WildCard)];
    assert!(classify_result_arms(&guarded).is_none());
    assert_eq!(simple_payload_binding(&variant("Ok", vec![ident("v")])), Some("v".to_string()));
}
