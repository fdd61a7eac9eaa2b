use cargo_health::Dependency;

#[test]
fn only_packages_with_a_source_are_looked_up() {
    let registry = Dependency {
        name: "serde".to_string(),
        version: "1.0.193".to_string(),
        source: Some("registry+https://github.com/rust-lang/crates.io-index".to_string()),
    };
    let local = Dependency { name: "my-app".to_string(), version: "0.1.0".to_string(), source: None };
    assert!(registry.has_source());
    assert!(!local.has_source());
}
