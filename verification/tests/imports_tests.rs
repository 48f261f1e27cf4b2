use emit::imports::{FileImportInfo, ImportAliasKind, ImportBuilder, ImportPlan};

fn named(name: &str, alias: &str) -> FileImportInfo {
    FileImportInfo {
        name: name.to_string(),
        alias: ImportAliasKind::Named(alias.to_string()),
        effective_alias: Some(alias.to_string()),
    }
}

#[test]
fn import_plan_indexes_the_last_matching_alias() {
    let imports = vec![named("one", "early"), named("one", "late"), named("two", "shared"), named("three", "shared")];
    let plan = ImportPlan::build(&imports, "module", &Vec::new(), &Vec::new());
    assert_eq!(plan.package_alias("one"), Some("late"));
    assert_eq!(plan.package_for_alias("shared"), Some("three"));
}

#[test]
fn unused_source_imports_are_dropped_but_remembered() {
    let imports = vec![
        named("go:github.com/x/yaml.v3", "yml"),
        FileImportInfo { name: "util".to_string(), alias: ImportAliasKind::Absent, effective_alias: Some("util".to_string()) },
    ];
    let plan = ImportPlan::build(&imports, "example.com/app", &vec!["yml".to_string()], &Vec::new());
    let mut builder = ImportBuilder::from_plan(plan, Vec::new(), Vec::new());
    builder.require_package_use("example.com/app/util", "util");
    builder.require_package_use("github.com/x/yaml.v3", "yml");
    let (imports, _) = builder.build();
    let listed: Vec<(String, String)> = imports.iter().map(|i| (i.path.clone(), i.alias.clone())).collect();
    assert_eq!(
        listed,
        vec![
            ("example.com/app/util".to_string(), "util".to_string()),
            ("github.com/x/yaml.v3".to_string(), "yml".to_string()),
        ]
    );
}

#[test]
fn blank_imports_are_kept_without_use() {
    let imports = vec![FileImportInfo { name: "go:embed".to_string(), alias: ImportAliasKind::Blank, effective_alias: None }];
    let plan = ImportPlan::build(&imports, "m", &Vec::new(), &Vec::new());
    let builder = ImportBuilder::from_plan(plan, Vec::new(), Vec::new());
    let (imports, collisions) = builder.build();
    assert_eq!(imports.len(), 1);
    assert_eq!(imports[0].path, "embed");
    assert_eq!(imports[0].alias, "_");
    assert!(collisions.is_empty());
}
