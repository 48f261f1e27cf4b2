use emit::output::{emit_doc, format_import, OutputCollector};
use emit::{OutputFile, OutputImport};

fn file(imports: Vec<OutputImport>, comment: Option<&str>) -> OutputFile {
    OutputFile {
        name: "a.go".to_string(),
        source: "func main() {}\n".to_string(),
        imports,
        package_name: "main".to_string(),
        file_comment: comment.map(|c| c.to_string()),
    }
}

fn import(path: &str, alias: &str) -> OutputImport {
    OutputImport { path: path.to_string(), alias: alias.to_string() }
}

#[test]
fn file_without_imports_or_comment() {
    assert_eq!(file(Vec::new(), None).to_go_unformatted(), "package main\nfunc main() {}\n");
}

#[test]
fn single_import_stays_on_one_line() {
    let f = file(vec![import("fmt", "")], None);
    assert_eq!(f.to_go_unformatted(), "package main\nimport \"fmt\"\nfunc main() {}\n");
}

#[test]
fn several_imports_form_a_block_after_the_comment() {
    let f = file(vec![import("fmt", ""), import("a/b", "x")], Some("Hello\n\nWorld"));
    assert_eq!(
        f.to_go_unformatted(),
        "// Hello\n//\n// World\n\npackage main\nimport (\n\"fmt\"\nx \"a/b\"\n)\nfunc main() {}\n"
    );
}

#[test]
fn formatted_text_wins_when_present() {
    let f = file(Vec::new(), None);
    assert_eq!(f.to_go(Some("formatted".to_string())), "formatted");
    assert_eq!(f.to_go(None), f.to_go_unformatted());
}

#[test]
fn imports_are_formatted_by_alias() {
    assert_eq!(format_import("fmt", ""), "\"fmt\"");
    assert_eq!(format_import("fmt", "fmt"), "\"fmt\"");
    assert_eq!(format_import("a/b", "c"), "c \"a/b\"");
    assert_eq!(format_import("github.com/x/my-lib", ""), "my_lib \"github.com/x/my-lib\"");
    assert_eq!(format_import("example.com/main", ""), "main_ \"example.com/main\"");
}

#[test]
fn doc_comments_become_go_comment_lines() {
    assert_eq!(emit_doc(&Some("a\nb".to_string())), "// a\n// b\n");
    assert_eq!(emit_doc(&Some("".to_string())), "//\n");
    assert_eq!(emit_doc(&Some("a\n".to_string())), "// a\n//\n");
    assert_eq!(emit_doc(&None), "");
}

#[test]
fn collector_joins_lines() {
    let mut collector = OutputCollector::new();
    collector.collect("a".to_string());
    collector.collect_with_blank("b".to_string());
    collector.collect("c".to_string());
    assert_eq!(collector.render(), "a\nb\n\nc");
    assert_eq!(OutputCollector::default().render(), "");
}
