use repo_tracker::config::{parse_repos_lines, resolve_relative, url_to_path, RepoEntry};
use std::path::PathBuf;

// ---------- url_to_path ----------
#[test]
fn url_to_path_basic() {
    assert_eq!(url_to_path("https://gitlab.com/group/repo", "https://gitlab.com").unwrap(), "group/repo");
}
#[test]
fn url_to_path_strips_dot_git() {
    assert_eq!(url_to_path("https://gitlab.com/group/repo.git", "https://gitlab.com").unwrap(), "group/repo");
}
#[test]
fn url_to_path_strips_trailing_slash() {
    assert_eq!(url_to_path("https://gitlab.com/group/repo/", "https://gitlab.com").unwrap(), "group/repo");
}
#[test]
fn url_to_path_handles_base_trailing_slash() {
    assert_eq!(url_to_path("https://gitlab.com/group/repo", "https://gitlab.com/").unwrap(), "group/repo");
}
#[test]
fn url_to_path_nested() {
    assert_eq!(url_to_path("https://gitlab.com/g/sub/r", "https://gitlab.com").unwrap(), "g/sub/r");
}
#[test]
fn url_to_path_mismatched_base_errors() {
    assert!(url_to_path("https://other.com/g/r", "https://gitlab.com").is_err());
}
#[test]
fn url_to_path_empty_path_errors() {
    assert!(url_to_path("https://gitlab.com/", "https://gitlab.com").is_err());
}

// ---------- parse_repos_lines ----------
#[test]
fn parse_repos_minimal() {
    let csv = "1,https://gitlab.com/g/a\n2,https://gitlab.com/g/b,3\n";
    let r = parse_repos_lines(csv, 1).unwrap();
    assert_eq!(r.len(), 2);
    assert_eq!(r[0], RepoEntry { id: "1".into(), url: "https://gitlab.com/g/a".into(), nest: 1 });
    assert_eq!(r[1], RepoEntry { id: "2".into(), url: "https://gitlab.com/g/b".into(), nest: 3 });
}
#[test]
fn parse_repos_skips_blank_and_comments() {
    let csv = "# header comment\n\n1,https://gitlab.com/g/a\n  # indented comment too\n2,https://gitlab.com/g/b,0\n";
    let r = parse_repos_lines(csv, 1).unwrap();
    assert_eq!(r.len(), 2);
    assert_eq!(r[1].nest, 0);
}
#[test]
fn parse_repos_default_nest_applied() {
    let r = parse_repos_lines("1,https://gitlab.com/g/a\n", 5).unwrap();
    assert_eq!(r[0].nest, 5);
}
#[test]
fn parse_repos_wrong_column_count_errors() {
    assert!(parse_repos_lines("1,url,3,extra\n", 1).is_err());
    assert!(parse_repos_lines("only_one_field\n", 1).is_err());
}
#[test]
fn parse_repos_bad_nest_errors() {
    assert!(parse_repos_lines("1,https://gitlab.com/g/a,not_a_number\n", 1).is_err());
}
#[test]
fn parse_repos_empty_id_errors() {
    assert!(parse_repos_lines(",https://gitlab.com/g/a\n", 1).is_err());
}
#[test]
fn parse_repos_empty_url_errors() {
    assert!(parse_repos_lines("1,\n", 1).is_err());
}
#[test]
fn parse_repos_trims_whitespace() {
    let r = parse_repos_lines("  1 , https://gitlab.com/g/a , 2 \n", 1).unwrap();
    assert_eq!(r[0], RepoEntry { id: "1".into(), url: "https://gitlab.com/g/a".into(), nest: 2 });
}

// ---------- resolve_relative ----------
#[test]
fn resolve_relative_to_config_dir() {
    let p = resolve_relative("/etc/repo-tracker/config.yml", "repos.csv");
    assert_eq!(PathBuf::from(p), PathBuf::from("/etc/repo-tracker/repos.csv"));
}
#[test]
fn resolve_relative_absolute_passes_through() {
    let p = resolve_relative("/etc/config.yml", "/var/lib/repos.csv");
    assert_eq!(PathBuf::from(p), PathBuf::from("/var/lib/repos.csv"));
}
