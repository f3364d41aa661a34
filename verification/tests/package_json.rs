use repo_tracker::parser::package_json::parse;

#[test]
fn parses_typical_package_json() {
    let raw = r#"{
      "name": "my-app",
      "version": "1.2.3",
      "dependencies": { "lodash": "^4.17.21", "react": "^18.0.0" },
      "devDependencies": { "jest": "^29.0.0" },
      "scripts": { "build": "tsc", "test": "jest" },
      "engines": { "node": ">=18" }
    }"#;
    let p = parse(raw).unwrap();
    assert_eq!(p.name.as_deref(), Some("my-app"));
    assert_eq!(p.version.as_deref(), Some("1.2.3"));
    assert_eq!(p.dependencies.get("lodash").map(String::as_str), Some("^4.17.21"));
    assert_eq!(p.dev_dependencies.get("jest").map(String::as_str), Some("^29.0.0"));
    assert_eq!(p.scripts.get("build").map(String::as_str), Some("tsc"));
    assert_eq!(p.engines.get("node").map(String::as_str), Some(">=18"));
}

#[test]
fn missing_fields_default_to_empty() {
    let p = parse(r#"{"name": "x"}"#).unwrap();
    assert_eq!(p.name.as_deref(), Some("x"));
    assert!(p.version.is_none());
    assert!(p.dependencies.is_empty());
    assert!(p.scripts.is_empty());
}

#[test]
fn non_string_dep_values_are_dropped() {
    // an object value, as npm overrides sometimes have, is not kept
    let raw = r#"{
      "dependencies": {
        "lodash": "^4.0.0",
        "weird": { "version": "^1.0.0", "registry": "x" }
      }
    }"#;
    let p = parse(raw).unwrap();
    assert_eq!(p.dependencies.get("lodash").map(String::as_str), Some("^4.0.0"));
    assert!(!p.dependencies.contains_key("weird"));
}

#[test]
fn rejects_non_object_root() {
    assert!(parse("[]").is_err());
    assert!(parse("\"foo\"").is_err());
}

#[test]
fn rejects_malformed_json() {
    assert!(parse("{ not json").is_err());
}
