use emit::names::enum_tag_constant;
use emit::names::{
    escape_reserved, go_package_name, is_generated_import_qualifier, is_go_import,
    is_go_reserved_word, is_plain_identifier, is_prelude_go_builtin, is_reserved_identifier,
    is_reserved_package_name, prelude_qualifier, reserved_prefix_of, sanitize_package_name,
    testing_qualifier, testkit_qualifier, GeneratedPackage, ResolvedName,
};
use emit::PRELUDE_IMPORT_PATH;

#[test]
fn plain_identifiers_are_ascii_words() {
    assert!(is_plain_identifier("x"));
    assert!(is_plain_identifier("_tmp1"));
    assert!(!is_plain_identifier(""));
    assert!(!is_plain_identifier("1x"));
    assert!(!is_plain_identifier("a.b"));
    assert!(!is_plain_identifier("é"));
}

#[test]
fn package_names_are_sanitized() {
    assert_eq!(sanitize_package_name("mypkg"), "mypkg");
    assert_eq!(sanitize_package_name(""), "");
    assert_eq!(sanitize_package_name("my-pkg"), "my_pkg");
    assert_eq!(sanitize_package_name("2fast"), "_2fast");
    assert_eq!(sanitize_package_name("main"), "main_");
    assert_eq!(sanitize_package_name("documentation"), "documentation_");
    assert_eq!(sanitize_package_name("type"), "type_");
    assert_eq!(sanitize_package_name("a.b"), "a_b");
    assert_eq!(sanitize_package_name("é"), "_");
}

#[test]
fn sanitized_names_are_identifiers_and_not_reserved() {
    for name in ["my-pkg", "2fast", "main", "go", "v1.2", "x"] {
        let sanitized = sanitize_package_name(name);
        assert!(is_plain_identifier(&sanitized));
        assert!(!is_reserved_package_name(&sanitized));
    }
}

#[test]
fn reserved_identifiers_are_escaped() {
    assert_eq!(escape_reserved("type"), "type_");
    assert_eq!(escape_reserved("len"), "len_");
    assert_eq!(escape_reserved("fmt"), "fmt_");
    assert_eq!(escape_reserved("lisette"), "lisette_");
    assert_eq!(escape_reserved("max"), "max");
    assert_eq!(escape_reserved("user"), "user");
    assert!(is_reserved_identifier("nil"));
    assert!(!is_reserved_identifier("panic"));
    assert!(is_go_reserved_word("panic"));
}

#[test]
fn package_name_is_the_last_path_segment() {
    assert_eq!(go_package_name("github.com/a/b"), "b");
    assert_eq!(go_package_name("fmt"), "fmt");
    assert_eq!(go_package_name("a/"), "");
}

#[test]
fn generated_names_and_imports_are_recognized() {
    assert!(is_go_import("go:fmt"));
    assert!(!is_go_import("fmt"));
    assert_eq!(reserved_prefix_of("_lisTest_case"), Some("_lisTest_"));
    assert_eq!(reserved_prefix_of("_lisAdapter_X"), Some("_lisAdapter_"));
    assert_eq!(reserved_prefix_of("x"), None);
    assert!(is_prelude_go_builtin("prelude.max"));
    assert!(!is_prelude_go_builtin("prelude.foo"));
    assert!(!is_prelude_go_builtin("max"));
}

#[test]
fn generated_packages_have_paths_and_qualifiers() {
    assert_eq!(GeneratedPackage::Json.path(), "encoding/json");
    assert_eq!(GeneratedPackage::Json.qualifier(), "json");
    assert_eq!(GeneratedPackage::Prelude.path(), PRELUDE_IMPORT_PATH);
    assert_eq!(prelude_qualifier(), "lisette");
    assert_eq!(testkit_qualifier(), "testkit");
    assert_eq!(testing_qualifier(), "testing");
    assert!(is_generated_import_qualifier("json"));
    assert!(!is_generated_import_qualifier("encoding/json"));
    assert_eq!(GeneratedPackage::all().len(), 10);
}

#[test]
fn resolved_names_record_their_package() {
    let stdlib = ResolvedName::stdlib("lisette.Option".to_string());
    assert!(stdlib.package == Some(GeneratedPackage::Prelude));
    let local = ResolvedName::local("x".to_string());
    assert!(local.package.is_none());
    assert_eq!(local.name, "x");
}

#[test]
fn enum_tag_constants_avoid_reserved_words_and_the_tag_field() {
    assert_eq!(enum_tag_constant("Color", "Red"), "ColorRed");
    assert_eq!(enum_tag_constant("Color", "Tag"), "ColorTag_");
    assert_eq!(enum_tag_constant("", "int"), "int_");
    assert_eq!(enum_tag_constant("ma", "p"), "map_");
}
