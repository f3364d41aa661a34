use repo_tracker::collect::{track_file, tracked_file_location, RawBundles};
use repo_tracker::gitlab::{ProjectMeta, RawFile};
use repo_tracker::model::{CiRawEntry, FileKind, ParsedFile, RepoFileRef, Repository, StrMap};
use repo_tracker::parser::{parse, parse_or_empty, ParseError};

#[test]
fn str_map_get_after_insert() {
    let mut m = StrMap::new();
    assert!(m.is_empty());
    m.insert("a".to_string(), "1".to_string());
    m.insert("b".to_string(), "2".to_string());
    m.insert("a".to_string(), "3".to_string());
    assert_eq!(m.get("a").map(String::as_str), Some("3"));
    assert_eq!(m.get("b").map(String::as_str), Some("2"));
    assert_eq!(m.get("c"), None);
    assert_eq!(m.len(), 2);
    assert!(m.contains_key("b"));
    let keys: Vec<&str> = m.entries().iter().map(|(k, _)| k.as_str()).collect();
    assert_eq!(keys, vec!["a", "b"]);
    let c = m.clone();
    assert_eq!(c.get("a").map(String::as_str), Some("3"));
}

#[test]
fn str_map_pairs_come_in_key_order() {
    let mut m = StrMap::new();
    for k in ["zeta", "é", "beta", "Alpha", "alpha", "", "be"] {
        m.insert(k.to_string(), k.to_uppercase());
    }
    m.insert("beta".to_string(), "again".to_string());
    let keys: Vec<&str> = m.entries().iter().map(|(k, _)| k.as_str()).collect();
    assert_eq!(keys, vec!["", "Alpha", "alpha", "be", "beta", "zeta", "é"]);
    assert_eq!(m.get("beta").map(String::as_str), Some("again"));
    assert_eq!(m.len(), 7);
}

#[test]
fn empty_parsed_matches_kind() {
    assert!(matches!(ParsedFile::empty(FileKind::PackageJson), ParsedFile::PackageJson(_)));
    assert!(matches!(ParsedFile::empty(FileKind::PomXml), ParsedFile::PomXml(_)));
    assert!(matches!(ParsedFile::empty(FileKind::GitlabCi), ParsedFile::GitlabCi(_)));
    assert!(matches!(ParsedFile::empty(FileKind::Dockerfile), ParsedFile::Unstructured(_)));
}

#[test]
fn parse_dispatches_by_kind() {
    assert!(matches!(parse(FileKind::Dockerfile, "FROM alpine"), Ok(ParsedFile::Unstructured(_))));
    assert!(matches!(parse(FileKind::PackageJson, "{}"), Ok(ParsedFile::PackageJson(_))));
    assert!(matches!(parse(FileKind::PomXml, "<project/>"), Ok(ParsedFile::PomXml(_))));
    assert!(matches!(parse(FileKind::GitlabCi, "stages: [a]"), Ok(ParsedFile::GitlabCi(_))));
    assert!(matches!(parse(FileKind::PackageJson, "[]"), Err(ParseError::PackageJson(_))));
    assert!(matches!(parse(FileKind::GitlabCi, "[a"), Err(ParseError::GitlabCi(_))));
    assert!(matches!(parse(FileKind::PomXml, "<a></b>"), Err(ParseError::PomXml(_))));
}

#[test]
fn parse_or_empty_keeps_kind_on_failure() {
    let (p, e) = parse_or_empty(FileKind::PackageJson, "{ not json");
    assert!(e.is_some());
    match p {
        ParsedFile::PackageJson(p) => {
            assert!(p.name.is_none());
            assert!(p.dependencies.is_empty());
        }
        other => panic!("unexpected: {other:?}"),
    }
    let (p, e) = parse_or_empty(FileKind::GitlabCi, "stages: [a]");
    assert!(e.is_none());
    assert!(matches!(p, ParsedFile::GitlabCi(c) if c.stages == vec!["a"]));
}

#[test]
fn tracked_file_location_layout() {
    assert_eq!(tracked_file_location("site/data", 42, "frontend/package.json"), "site/data/files/42/frontend/package.json.json");
    assert_eq!(tracked_file_location("/out/", 0, ".gitlab-ci.yml"), "/out/files/0/.gitlab-ci.yml.json");
    assert_eq!(tracked_file_location("", 1234567890123, "pom.xml"), "files/1234567890123/pom.xml.json");
}

fn raw(repo_id: u64, path: &str) -> CiRawEntry {
    CiRawEntry { repo_id, path: path.to_string(), raw: String::new() }
}

#[test]
fn raw_bundles_sort_by_kind() {
    let mut b = RawBundles::new();
    b.add(FileKind::GitlabCi, raw(1, ".gitlab-ci.yml"));
    b.add(FileKind::Dockerfile, raw(1, "Dockerfile"));
    let mut c = RawBundles::new();
    c.add(FileKind::PackageJson, raw(2, "package.json"));
    c.add(FileKind::GitlabCi, raw(2, ".gitlab-ci.yml"));
    c.add(FileKind::PomXml, raw(2, "pom.xml"));
    b.extend(c);
    let ids: Vec<u64> = b.ci.iter().map(|e| e.repo_id).collect();
    assert_eq!(ids, vec![1, 2]);
    assert_eq!(b.pkg.len(), 1);
    assert_eq!(b.pom.len(), 1);
    assert_eq!(b.docker.len(), 1);
}

#[test]
fn track_file_parses_or_keeps_raw_only() {
    let f = RepoFileRef { kind: FileKind::PackageJson, path: "package.json".to_string() };
    let (t, e, err) = track_file(7, &f, RawFile { blob_sha: "s".into(), size: 12, raw: r#"{"name":"x"}"#.into() });
    assert!(err.is_none());
    assert_eq!(t.repo_id, 7);
    assert_eq!(t.kind, FileKind::PackageJson);
    assert_eq!(e.raw, r#"{"name":"x"}"#);
    assert!(matches!(&t.parsed, ParsedFile::PackageJson(p) if p.name.as_deref() == Some("x")));
    let (t, _, err) = track_file(7, &f, RawFile { blob_sha: "s".into(), size: 1, raw: "{".into() });
    assert!(err.is_some());
    assert_eq!(t.raw, "{");
    assert!(matches!(&t.parsed, ParsedFile::PackageJson(p) if p.name.is_none()));
}

#[test]
fn repository_from_meta_fields() {
    let meta = ProjectMeta {
        id: 9,
        name: "repo".into(),
        path_with_namespace: "g/repo".into(),
        web_url: "https://gitlab.com/g/repo".into(),
        default_branch: "main".into(),
    };
    let files = vec![RepoFileRef { kind: FileKind::PomXml, path: "pom.xml".into() }];
    let r = Repository::from_meta(&meta, "2024-01-01T00:00:00+00:00", files);
    assert_eq!(r.id, 9);
    assert_eq!(r.path, "g/repo");
    assert_eq!(r.name, "repo");
    assert_eq!(r.url, "https://gitlab.com/g/repo");
    assert_eq!(r.fetched_at, "2024-01-01T00:00:00+00:00");
    assert_eq!(r.files.len(), 1);
}
