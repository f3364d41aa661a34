use repo_tracker::model::CiInclude;
use repo_tracker::parser::{gitlab_ci, package_json, pom_xml};

#[test]
fn ci_script_nested_and_variables_scalars() {
    let raw = r#"
variables:
  ON: true
  RATIO: 1.5
  LIST: [1, 2]
job:
  script:
    - echo a
    - [echo b, [echo c]]
    - 42
"#;
    let p = gitlab_ci::parse(raw).unwrap();
    assert_eq!(p.variables.get("ON").map(String::as_str), Some("true"));
    assert_eq!(p.variables.get("RATIO").map(String::as_str), Some("1.5"));
    assert!(!p.variables.contains_key("LIST"));
    assert_eq!(p.jobs[0].script, vec!["echo a", "echo b", "echo c"]);
}

#[test]
fn ci_single_mapping_include_and_reserved_keys() {
    let raw = r#"
include:
  project: g/t
workflow:
  rules: []
image: ruby
.hidden:
  image: base
deploy:
  extends: [.hidden, .other]
  image: { name: alpine }
"#;
    let p = gitlab_ci::parse(raw).unwrap();
    assert_eq!(p.includes.len(), 1);
    match &p.includes[0] {
        CiInclude::Project { project, ref_, files } => {
            assert_eq!(project, "g/t");
            assert!(ref_.is_none());
            assert!(files.is_empty());
        }
        other => panic!("unexpected: {other:?}"),
    }
    let names: Vec<&str> = p.jobs.iter().map(|j| j.name.as_str()).collect();
    assert_eq!(names, vec![".hidden", "deploy"]);
    assert_eq!(p.jobs[1].extends, vec![".hidden", ".other"]);
    assert_eq!(p.images, vec!["base", "alpine"]);
    assert!(p.default.is_none());
}

#[test]
fn ci_unknown_include_entries_are_dropped() {
    let p = gitlab_ci::parse("include:\n  - {other: x}\n  - local: a.yml\n  - 3\n").unwrap();
    assert_eq!(p.includes.len(), 1);
    let p = gitlab_ci::parse("include: 3\n").unwrap();
    assert!(p.includes.is_empty());
}

#[test]
fn ci_scalar_root_rejected() {
    assert!(matches!(gitlab_ci::parse("just text"), Err(gitlab_ci::CiParseError::RootNotMapping)));
    assert!(matches!(gitlab_ci::parse("a: [b"), Err(gitlab_ci::CiParseError::Yaml(_))));
    assert!(matches!(gitlab_ci::parse("a: 1\na: 2\n"), Err(gitlab_ci::CiParseError::Yaml(_))));
}

#[test]
fn package_json_non_string_fields() {
    let p = package_json::parse(r#"{"name": 3, "version": "1", "engines": {"node": 18, "npm": ">=9"}, "scripts": []}"#).unwrap();
    assert!(p.name.is_none());
    assert_eq!(p.version.as_deref(), Some("1"));
    assert!(!p.engines.contains_key("node"));
    assert_eq!(p.engines.get("npm").map(String::as_str), Some(">=9"));
    assert!(p.scripts.is_empty());
    assert!(matches!(package_json::parse("null"), Err(package_json::PackageJsonError::RootNotObject)));
    assert!(matches!(package_json::parse("{"), Err(package_json::PackageJsonError::Json(_))));
}

#[test]
fn pom_entities_empty_elements_and_nesting() {
    let raw = r#"<project>
  <groupId>a&amp;b</groupId>
  <parent/>
  <dependencies>
    <dependency><groupId>x</groupId><artifactId>y</artifactId><exclusions><exclusion><groupId>z</groupId></exclusion></exclusions></dependency>
  </dependencies>
  <profiles><profile><dependencies><dependency><groupId>p</groupId></dependency></dependencies></profile></profiles>
  <build><plugins><plugin><artifactId>m</artifactId></plugin></plugins><pluginManagement><plugins><plugin><artifactId>n</artifactId></plugin></plugins></pluginManagement></build>
</project>"#;
    let p = pom_xml::parse(raw).unwrap();
    assert_eq!(p.group_id.as_deref(), Some("a&b"));
    assert!(p.parent.is_none());
    assert_eq!(p.dependencies.len(), 1);
    assert_eq!(p.dependencies[0].group_id, "x");
    assert_eq!(p.dependencies[0].artifact_id, "y");
    assert_eq!(p.plugins.len(), 1);
    assert_eq!(p.plugins[0].artifact_id, "m");
    assert_eq!(p.plugins[0].group_id, "");
}

#[test]
fn pom_empty_document_and_bad_escape() {
    let p = pom_xml::parse("").unwrap();
    assert!(p.group_id.is_none());
    assert!(pom_xml::parse("<project><groupId>&bogus;</groupId></project>").is_err());
}

#[test]
fn pom_text_only_sets_the_selected_field() {
    let raw = r#"<project>
  <parent><groupId>pg</groupId><relativePath>../x</relativePath><artifactId>pa</artifactId></parent>
  <properties><b.key>2</b.key><a.key>1</a.key></properties>
  <dependencies><dependency><groupId>dg</groupId><type>jar</type><scope>test</scope></dependency></dependencies>
  <name>ignored</name>
</project>"#;
    let p = pom_xml::parse(raw).unwrap();
    let parent = p.parent.unwrap();
    assert_eq!(parent.group_id, "pg");
    assert_eq!(parent.artifact_id, "pa");
    assert_eq!(parent.version, "");
    assert_eq!(p.group_id, None);
    assert_eq!(p.artifact_id, None);
    assert_eq!(p.version, None);
    let keys: Vec<&str> = p.properties.entries().iter().map(|(k, _)| k.as_str()).collect();
    assert_eq!(keys, vec!["a.key", "b.key"]);
    assert_eq!(p.dependencies.len(), 1);
    assert_eq!(p.dependencies[0].group_id, "dg");
    assert_eq!(p.dependencies[0].artifact_id, "");
    assert_eq!(p.dependencies[0].version, None);
    assert_eq!(p.dependencies[0].scope.as_deref(), Some("test"));
    assert!(p.plugins.is_empty());
}
