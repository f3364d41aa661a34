use repo_tracker::config::parse_repos_lines;
use repo_tracker::json::Json;
use repo_tracker::parser::gitlab_ci::{parse_document, CiParseError};
use repo_tracker::parser::package_json;
use repo_tracker::parser::pom_xml::{local_name, pom_from_events};
use repo_tracker::xml::XmlEvent;
use repo_tracker::yaml::Yaml;

fn s(x: &str) -> Yaml {
    Yaml::Str(x.to_string())
}

fn tagged(t: &str, v: Yaml) -> Yaml {
    Yaml::Tagged(t.to_string(), Box::new(v))
}

#[test]
fn design_repos_csv_example() {
    let csv = "# id,url[,nest]\n1234,https://gitlab.example.com/group/repo-a\n5678,https://gitlab.example.com/group/sub/repo-b,3\n9012,https://gitlab.example.com/group/repo-c,0\n";
    let r = parse_repos_lines(csv, 1).unwrap();
    let got: Vec<(&str, u32)> = r.iter().map(|e| (e.id.as_str(), e.nest)).collect();
    assert_eq!(got, vec![("1234", 1), ("5678", 3), ("9012", 0)]);
    assert_eq!(r[1].url, "https://gitlab.example.com/group/sub/repo-b");
}

#[test]
fn ci_document_tags_untagged_where_read_as_text() {
    // a tagged key still names a job; a tagged string is read by `as_str`
    // in lists but not where a plain string is required
    let root = Yaml::Mapping(vec![
        (tagged("!k", s("build")), Yaml::Mapping(vec![
            (s("stage"), tagged("!t", s("compile"))),
            (s("tags"), Yaml::Sequence(vec![tagged("!t", s("a")), Yaml::Null, s("b")])),
            (s("script"), tagged("!t", s("make"))),
            (s("image"), tagged("!t", s("alpine"))),
        ])),
        (tagged("!k", s("stages")), Yaml::Sequence(vec![s("x")])),
        (s("variables"), Yaml::Mapping(vec![
            (tagged("!k", s("A")), Yaml::Bool(false)),
            (s("B"), Yaml::Number("7".to_string())),
            (s("C"), tagged("!t", s("c"))),
        ])),
    ]);
    let p = parse_document(&root).unwrap();
    assert_eq!(p.jobs.len(), 1);
    let j = &p.jobs[0];
    assert_eq!(j.name, "build");
    assert_eq!(j.stage.as_deref(), Some("compile"));
    assert_eq!(j.tags, vec!["a", "b"]);
    assert!(j.script.is_empty());
    assert!(j.image.is_none());
    // a tagged `stages` key is not the `stages` key, and is reserved as a job name
    assert!(p.stages.is_empty());
    assert_eq!(p.variables.get("A").map(String::as_str), Some("false"));
    assert_eq!(p.variables.get("B").map(String::as_str), Some("7"));
    assert!(!p.variables.contains_key("C"));
    assert!(p.images.is_empty());
}

#[test]
fn ci_document_roots() {
    assert!(parse_document(&Yaml::Null).unwrap().jobs.is_empty());
    assert!(matches!(parse_document(&s("x")), Err(CiParseError::RootNotMapping)));
    assert!(matches!(parse_document(&tagged("!t", Yaml::Mapping(vec![]))), Err(CiParseError::RootNotMapping)));
}

#[test]
fn package_document_members() {
    let root = Json::Object(vec![
        ("dependencies".to_string(), Json::Object(vec![
            ("a".to_string(), Json::Str("1".to_string())),
            ("b".to_string(), Json::Number("2".to_string())),
            ("a".to_string(), Json::Str("3".to_string())),
        ])),
        ("name".to_string(), Json::Str("n".to_string())),
        ("name".to_string(), Json::Str("m".to_string())),
    ]);
    let p = package_json::parse_document(&root).unwrap();
    assert_eq!(p.dependencies.get("a").map(String::as_str), Some("3"));
    assert!(!p.dependencies.contains_key("b"));
    // the first member of a name is the one read
    assert_eq!(p.name.as_deref(), Some("n"));
    assert!(package_json::parse_document(&Json::Array(vec![])).is_err());
}

fn start(n: &str) -> XmlEvent {
    XmlEvent::Start(n.as_bytes().to_vec())
}

fn text(t: &str) -> XmlEvent {
    XmlEvent::Text(t.to_string())
}

#[test]
fn pom_events_machine() {
    let evs = vec![
        start("m:project"),
        start("parent"), start("groupId"), text("pg"), XmlEvent::End, XmlEvent::End,
        start("properties"), start("a.b"), text("1"), XmlEvent::End, start("a.b"), text("2"), XmlEvent::End, XmlEvent::End,
        start("dependencies"), start("dependency"), start("scope"), text("test"), XmlEvent::End, XmlEvent::Other,
        start("version"), text("v1"), XmlEvent::End, XmlEvent::End,
        // a dependency still open when the events end is dropped
        start("dependency"), start("groupId"), text("late"),
    ];
    let p = pom_from_events(&evs);
    assert_eq!(p.parent.as_ref().map(|c| c.group_id.as_str()), Some("pg"));
    assert_eq!(p.parent.as_ref().map(|c| c.version.as_str()), Some(""));
    assert_eq!(p.properties.get("a.b").map(String::as_str), Some("2"));
    assert_eq!(p.dependencies.len(), 1);
    assert_eq!(p.dependencies[0].scope.as_deref(), Some("test"));
    assert_eq!(p.dependencies[0].version.as_deref(), Some("v1"));
    assert_eq!(p.dependencies[0].group_id, "");
}

#[test]
fn local_names() {
    assert_eq!(local_name(&b"project".to_vec()), "project");
    assert_eq!(local_name(&b"pom:groupId".to_vec()), "groupId");
    assert_eq!(local_name(&b"a:b:c".to_vec()), "c");
    assert_eq!(local_name(&b"x:".to_vec()), "");
    assert_eq!(local_name(&vec![0xff, b':', b'a']), "");
}
