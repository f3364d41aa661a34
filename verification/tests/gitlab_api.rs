use repo_tracker::gitlab::{
    default_targets, classify, decode_file_response, file_url, project_meta_url, tree_url, FileError, TreeEntry,
    TreeWalk,
};
use repo_tracker::model::FileKind;
use std::collections::HashMap;

#[test]
fn urls_encode_project_and_path() {
    assert_eq!(
        project_meta_url("https://gitlab.com//", "group/repo"),
        "https://gitlab.com/api/v4/projects/group%2Frepo"
    );
    assert_eq!(
        file_url("https://gitlab.com", "1234", "main", "ci/a b.yml"),
        "https://gitlab.com/api/v4/projects/1234/repository/files/ci%2Fa%20b.yml?ref=main"
    );
    assert_eq!(
        tree_url("https://gitlab.com", "g/r", ""),
        "https://gitlab.com/api/v4/projects/g%2Fr/repository/tree?per_page=100"
    );
    assert_eq!(
        tree_url("https://gitlab.com", "g/r", "front_end/é"),
        "https://gitlab.com/api/v4/projects/g%2Fr/repository/tree?per_page=100&path=front_end%2F%C3%A9"
    );
}

#[test]
fn classify_known_names_only() {
    assert_eq!(classify("package.json"), Some(FileKind::PackageJson));
    assert_eq!(classify("pom.xml"), Some(FileKind::PomXml));
    assert_eq!(classify(".gitlab-ci.yml"), Some(FileKind::GitlabCi));
    assert_eq!(classify("Dockerfile"), Some(FileKind::Dockerfile));
    assert_eq!(classify("README.md"), None);
    assert_eq!(classify("Package.json"), None);
}

#[test]
fn decode_file_response_cases() {
    let f = decode_file_response(5, "base64", "abc123", "aGVsbG8=").unwrap();
    assert_eq!(f.raw, "hello");
    assert_eq!(f.blob_sha, "abc123");
    assert_eq!(f.size, 5);
    match decode_file_response(5, "text", "x", "hello") {
        Err(FileError::UnexpectedEncoding(e)) => assert_eq!(e, "text"),
        other => panic!("unexpected: {other:?}"),
    }
    assert!(matches!(decode_file_response(1, "base64", "x", "@@@@"), Err(FileError::Base64(_))));
    match decode_file_response(1, "base64", "x", "/w==") {
        Err(FileError::NotUtf8(e)) => {
            assert_eq!(e.utf8_error().valid_up_to(), 0);
            assert_eq!(e.to_string(), "invalid utf-8 sequence of 1 bytes from index 0");
        }
        other => panic!("unexpected: {other:?}"),
    }
}

fn entry(name: &str, kind: &str, path: &str) -> TreeEntry {
    TreeEntry { name: name.to_string(), kind: kind.to_string(), path: path.to_string() }
}

fn run_walk(nest: u32, tree: &HashMap<&str, Vec<TreeEntry>>) -> (Vec<(FileKind, String)>, Vec<String>) {
    let mut walk = TreeWalk::new(nest, default_targets());
    let mut asked = Vec::new();
    while let Some(path) = walk.next_request() {
        let listing = tree.get(path.as_str()).cloned().unwrap_or_default();
        asked.push(path);
        walk.deliver(listing);
    }
    assert!(walk.is_done());
    (walk.into_found().into_iter().map(|f| (f.kind, f.path)).collect(), asked)
}

fn sample_tree() -> HashMap<&'static str, Vec<TreeEntry>> {
    let mut t = HashMap::new();
    t.insert("", vec![
        entry(".gitlab-ci.yml", "blob", ".gitlab-ci.yml"),
        entry("frontend", "tree", "frontend"),
        entry("README.md", "blob", "README.md"),
        entry("pom.xml", "blob", "pom.xml"),
        entry("services", "tree", "services"),
    ]);
    t.insert("frontend", vec![entry("package.json", "blob", "frontend/package.json"), entry("src", "tree", "frontend/src")]);
    t.insert("frontend/src", vec![entry("package.json", "blob", "frontend/src/package.json")]);
    t.insert("services", vec![entry("api", "tree", "services/api"), entry("Dockerfile", "blob", "services/Dockerfile")]);
    t.insert("services/api", vec![entry("pom.xml", "blob", "services/api/pom.xml")]);
    t
}

#[test]
fn tree_walk_depth_first_to_nest() {
    let t = sample_tree();
    let (found, asked) = run_walk(1, &t);
    assert_eq!(asked, vec!["", "frontend", "services"]);
    assert_eq!(found, vec![
        (FileKind::GitlabCi, ".gitlab-ci.yml".to_string()),
        (FileKind::PackageJson, "frontend/package.json".to_string()),
        (FileKind::PomXml, "pom.xml".to_string()),
        (FileKind::Dockerfile, "services/Dockerfile".to_string()),
    ]);
}

#[test]
fn tree_walk_root_only_and_deeper() {
    let t = sample_tree();
    let (found, asked) = run_walk(0, &t);
    assert_eq!(asked, vec![""]);
    assert_eq!(found.len(), 2);
    let (found, _) = run_walk(2, &t);
    assert_eq!(found, vec![
        (FileKind::GitlabCi, ".gitlab-ci.yml".to_string()),
        (FileKind::PackageJson, "frontend/package.json".to_string()),
        (FileKind::PackageJson, "frontend/src/package.json".to_string()),
        (FileKind::PomXml, "pom.xml".to_string()),
        (FileKind::PomXml, "services/api/pom.xml".to_string()),
        (FileKind::Dockerfile, "services/Dockerfile".to_string()),
    ]);
}

#[test]
fn tree_walk_only_collects_targets() {
    let mut t = HashMap::new();
    t.insert("", vec![entry("pom.xml", "blob", "pom.xml"), entry("package.json", "blob", "package.json")]);
    let mut walk = TreeWalk::new(3, vec!["package.json".to_string(), "notes.txt".to_string()]);
    while let Some(path) = walk.next_request() {
        walk.deliver(t.get(path.as_str()).cloned().unwrap_or_default());
    }
    let found = walk.into_found();
    assert_eq!(found.len(), 1);
    assert_eq!(found[0].path, "package.json");
}

#[test]
fn default_targets_are_the_four_kinds() {
    let t = default_targets();
    assert_eq!(t, vec![".gitlab-ci.yml", "package.json", "pom.xml", "Dockerfile"]);
    assert!(t.iter().all(|n| classify(n).is_some()));
}
