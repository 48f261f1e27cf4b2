use emit::go_type::{split_top_level_commas, GoType, build_go_import_typed};
use emit::packages::PackageUse;
use emit::access::{emit_range_var_slice, emit_struct_literal, range_var_bounds, StructCallField};
use emit::bindings::{BindingValue, InlineExpr};
use emit::prelude_types::PreludeType;
use emit::sentinel_hint;
use emit::utils::{group_params, wrap_if_struct_literal};

#[test]
fn struct_literal_conditions_are_parenthesized() {
    assert_eq!(wrap_if_struct_literal("T{a} == x".to_string()), "(T{a} == x)");
    assert_eq!(wrap_if_struct_literal("a == b".to_string()), "a == b");
}

#[test]
fn parameters_group_by_consecutive_type() {
    let params = vec![
        ("a".to_string(), "int".to_string()),
        ("b".to_string(), "int".to_string()),
        ("c".to_string(), "string".to_string()),
        ("d".to_string(), "int".to_string()),
    ];
    assert_eq!(group_params(&params), "a, b int, c string, d int");
    assert_eq!(group_params(&Vec::new()), "");
    assert_eq!(group_params(&vec![("x".to_string(), "bool".to_string())]), "x bool");
}

#[test]
fn range_variables_give_slice_bounds() {
    assert_eq!(range_var_bounds("r", "Range"), (Some("r.Start".to_string()), Some("r.End".to_string())));
    assert_eq!(
        range_var_bounds("r", "RangeInclusive"),
        (Some("r.Start".to_string()), Some("r.End+1".to_string()))
    );
    assert_eq!(range_var_bounds("r", "RangeFrom"), (Some("r.Start".to_string()), None));
    assert_eq!(range_var_bounds("r", "RangeToInclusive"), (None, Some("r.End+1".to_string())));
    assert_eq!(emit_range_var_slice("s", "r", "Range", false), "s[r.Start:r.End]");
    assert_eq!(emit_range_var_slice("s", "r", "RangeTo", true), "s[:r.End:r.End]");
    assert_eq!(emit_range_var_slice("s", "r", "RangeFrom", true), "s[r.Start:len(s):len(s)]");
}

#[test]
fn struct_literals_render_by_field_count() {
    assert_eq!(emit_struct_literal("T", &Vec::new(), false), "T{}");
    let one = vec![("A".to_string(), "1".to_string())];
    assert_eq!(emit_struct_literal("T", &one, false), "T{ A: 1 }");
    let two = vec![("A".to_string(), "1".to_string()), ("B".to_string(), "2".to_string())];
    assert_eq!(emit_struct_literal("T", &two, false), "T{\nA: 1,\nB: 2,\n}");
    assert_eq!(emit_struct_literal("T[int]", &Vec::new(), true), "(T[int]{})");
    assert_eq!(emit_struct_literal("T", &Vec::new(), true), "T{}");
    let field = StructCallField { name: "A".to_string(), value: "1".to_string(), has_observable_evaluation: false };
    assert_eq!(field.into_pair(), ("A".to_string(), "1".to_string()));
}

#[test]
fn prelude_types_are_named_in_the_stdlib_package() {
    assert!(PreludeType::from_name("Option") == Some(PreludeType::Option));
    assert!(PreludeType::from_name("Nope").is_none());
    assert_eq!(PreludeType::Option.emit_type(&Vec::new()), "lisette.Option");
    assert_eq!(
        PreludeType::Result.emit_type(&vec!["int".to_string(), "error".to_string()]),
        "lisette.Result[int, error]"
    );
}

#[test]
fn bindings_expose_their_go_names() {
    assert_eq!(BindingValue::GoName("x".to_string()).as_go_name(), Some("x"));
    assert!(BindingValue::GoConst("C".to_string()).is_go_const());
    let inline = InlineExpr::new("a.b".to_string(), vec!["a".to_string()], false);
    assert_eq!(inline.as_str(), "a.b");
    assert_eq!(inline.refs(), &["a".to_string()]);
    assert_eq!(BindingValue::InlineExpr(inline).as_go_name(), None);
}

#[test]
fn sentinel_hints_ask_for_minus_one() {
    assert_eq!(sentinel_hint(&["x".to_string(), "sentinel_minus_one".to_string()]), Some(-1));
    assert_eq!(sentinel_hint(&["x".to_string()]), None);
}

#[test]
fn recipes_split_only_on_top_level_commas() {
    assert_eq!(split_top_level_commas("Map<K, V>, K, V"), vec!["Map<K, V>", " K", " V"]);
    assert_eq!(split_top_level_commas(""), vec![""]);
    assert_eq!(split_top_level_commas("A<B<C, D>>"), vec!["A<B<C, D>>"]);
    assert_eq!(split_top_level_commas("a,"), vec!["a", ""]);
}

#[test]
fn go_types_carry_the_packages_they_name() {
    let inner = GoType::with_package("time.Duration".to_string(), PackageUse::new("time".to_string(), "time".to_string()));
    let outer = build_go_import_typed(
        "lisette.Option[time.Duration]".to_string(),
        PackageUse::new("github.com/ivov/lisette/prelude".to_string(), "lisette".to_string()),
        &[inner],
    );
    assert_eq!(outer.code, "lisette.Option[time.Duration]");
    assert_eq!(outer.requirements().iter().len(), 2);
    assert_eq!(GoType::stdlib("lisette.Unit".to_string()).requirements().iter()[0].qualifier(), "lisette");
}
