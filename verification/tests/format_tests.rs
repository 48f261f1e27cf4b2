use emit::format_strings::{format_call, format_concatenation, format_text_piece, format_verb_for, FormatPart, ValueKind};
use emit::values::{EvaluationEffect, GoExpression, OperandForm, SequencedValues};

fn values(rendered: &[&str]) -> SequencedValues {
    SequencedValues {
        setup: Vec::new(),
        values: rendered.iter().map(|r| GoExpression::name(r.to_string())).collect(),
        effect: EvaluationEffect::Pure,
    }
}

#[test]
fn literal_pieces_collapse_braces_and_escape() {
    assert_eq!(format_text_piece("a {{b}} c"), "a {b} c");
    assert_eq!(format_text_piece("x\ny"), "x\\ny");
    assert_eq!(format_text_piece("{{{"), "{{");
}

#[test]
fn verbs_follow_the_value_kind() {
    assert_eq!(format_verb_for(ValueKind::Rune), "%c");
    assert_eq!(format_verb_for(ValueKind::Integer), "%d");
    assert_eq!(format_verb_for(ValueKind::Float), "%g");
    assert_eq!(format_verb_for(ValueKind::Other), "%v");
}

#[test]
fn string_values_concatenate() {
    let parts = vec![
        FormatPart::Text("Hello, ".to_string()),
        FormatPart::Value { kind: ValueKind::String },
        FormatPart::Text("!".to_string()),
    ];
    let plan = format_concatenation(&parts, values(&["name"]));
    assert_eq!(plan.rendered(), "\"Hello, \" + name + \"!\"");
    let only_value = vec![FormatPart::Text(String::new()), FormatPart::Value { kind: ValueKind::String }];
    assert_eq!(format_concatenation(&only_value, values(&["s"])).rendered(), "s");
}

#[test]
fn other_values_use_sprintf() {
    let parts = vec![
        FormatPart::Text("n = ".to_string()),
        FormatPart::Value { kind: ValueKind::Integer },
        FormatPart::Text(" (100%)".to_string()),
    ];
    let plan = format_call(&parts, values(&["n"]));
    assert_eq!(plan.rendered(), "fmt.Sprintf(\"n = %d (100%%)\", n)");
    assert!(plan.evaluation.form == OperandForm::Call);
}

#[test]
fn a_lone_value_uses_sprint_unless_it_is_a_rune() {
    let lone = vec![FormatPart::Value { kind: ValueKind::Integer }];
    assert_eq!(format_call(&lone, values(&["n"])).rendered(), "fmt.Sprint(n)");
    let rune = vec![FormatPart::Value { kind: ValueKind::Rune }];
    assert_eq!(format_call(&rune, values(&["r"])).rendered(), "fmt.Sprintf(\"%c\", r)");
}

#[test]
fn text_without_values_is_a_literal() {
    let parts = vec![FormatPart::Text("100% {{sure}}".to_string())];
    let plan = format_call(&parts, values(&[]));
    assert_eq!(plan.rendered(), "\"100% {sure}\"");
    assert!(plan.evaluation.form == OperandForm::Literal);
}
