use emit::names::GeneratedPackage;
use emit::packages::{PackageRequirements, PackageUse};

fn paths(requirements: &PackageRequirements) -> Vec<(String, String)> {
    requirements
        .iter()
        .iter()
        .map(|u| (u.package().path().to_string(), u.qualifier().to_string()))
        .collect()
}

#[test]
fn requiring_a_package_twice_holds_it_once() {
    let mut requirements = PackageRequirements::default();
    requirements.require_generated(GeneratedPackage::Fmt);
    requirements.require_generated(GeneratedPackage::Fmt);
    assert_eq!(paths(&requirements), vec![("fmt".to_string(), "fmt".to_string())]);
    assert!(requirements.contains(&PackageUse::generated(GeneratedPackage::Fmt)));
    assert!(!requirements.contains(&PackageUse::generated(GeneratedPackage::Json)));
}

#[test]
fn same_path_under_another_qualifier_is_another_use() {
    let mut requirements = PackageRequirements::default();
    requirements.require(PackageUse::new("a/b".to_string(), "b".to_string()));
    requirements.require(PackageUse::new("a/b".to_string(), "c".to_string()));
    assert_eq!(paths(&requirements).len(), 2);
}

#[test]
fn extending_takes_the_union() {
    let mut left = PackageRequirements::default();
    left.require_generated(GeneratedPackage::Fmt);
    let mut right = PackageRequirements::default();
    right.require_generated(GeneratedPackage::Fmt);
    right.require_generated(GeneratedPackage::Json);
    left.extend(&right);
    assert_eq!(
        paths(&left),
        vec![
            ("fmt".to_string(), "fmt".to_string()),
            ("encoding/json".to_string(), "json".to_string())
        ]
    );
}
