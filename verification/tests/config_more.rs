use repo_tracker::config::{
    default_nest, default_output_dir, join_relative, parse_repos_lines, resolve_relative,
    url_to_path, Defaults, RepoEntry,
};

#[test]
fn url_to_path_mismatch_message_quotes_both_urls() {
    let e = url_to_path("  https://other.com/g/r ", "https://gitlab.com/").unwrap_err();
    assert_eq!(e, "url \"https://other.com/g/r\" does not start with gitlab url \"https://gitlab.com\"");
}

#[test]
fn url_to_path_empty_path_message() {
    let e = url_to_path("https://gitlab.com/.git/", "https://gitlab.com").unwrap_err();
    assert_eq!(e, "url \"https://gitlab.com/.git/\" extracted to empty path");
}

#[test]
fn url_to_path_strips_repeated_suffixes() {
    assert_eq!(url_to_path("https://gitlab.com//g/r.git.git//", "https://gitlab.com").unwrap(), "g/r");
    // a `.git` that sits before a `/` is only reached after the `/` goes
    assert_eq!(url_to_path("https://gitlab.com/g/r.git/.git", "https://gitlab.com").unwrap(), "g/r.git");
}

#[test]
fn url_to_path_round_trips_a_joined_path() {
    let base = "https://gitlab.example.com/sub";
    for p in ["g/r", "group/sub/repo", "a"] {
        let url = format!("{}/{}", base, p);
        assert_eq!(url_to_path(&url, base).unwrap(), p);
    }
}

#[test]
fn url_to_path_round_trips_every_suffix() {
    let base = "https://gitlab.example.com";
    for p in ["g/r", "group/sub/repo", "a.gitx"] {
        for s in ["", "/", ".git", ".git/"] {
            let url = format!("{}/{}{}", base, p, s);
            assert_eq!(url_to_path(&url, base).unwrap(), p);
            assert_eq!(url_to_path(&url, &format!("{}/", base)).unwrap(), p);
        }
    }
}

#[test]
fn parse_repos_concatenated_texts() {
    let a = "g/a,https://x/g/a\r\n# c\n";
    let b = "g/b,https://x/g/b,3\n\ng/c,https://x/g/c";
    let x = parse_repos_lines(a, 2).unwrap();
    let y = parse_repos_lines(b, 2).unwrap();
    let both = parse_repos_lines(&format!("{a}{b}"), 2).unwrap();
    let mut expected = x.clone();
    expected.extend(y);
    assert_eq!(both, expected);
    assert_eq!(both.len(), 3);
    assert_eq!(both[1].nest, 3);
}

#[test]
fn parse_repos_keeps_a_final_carriage_return_inside_the_line() {
    let r = parse_repos_lines("g/a,https://x/g/a\r", 1).unwrap();
    assert_eq!(r[0].url, "https://x/g/a");
    assert_eq!(parse_repos_lines("1,u,5\r", 1).unwrap()[0].nest, 5);
}

#[test]
fn parse_repos_messages_name_the_line() {
    let text = "# c\n1,u\n1,u,2,3\n";
    assert_eq!(
        parse_repos_lines(text, 1).unwrap_err(),
        "line 3: expected 'id,url[,nest]' (2 or 3 fields), got 4 fields"
    );
    assert_eq!(parse_repos_lines("\n\n1,u,x\n", 1).unwrap_err(), "line 3: nest: invalid digit found in string");
    assert_eq!(parse_repos_lines("1,u,\n", 1).unwrap_err(), "line 1: nest: cannot parse integer from empty string");
    assert_eq!(
        parse_repos_lines("1,u,4294967296\n", 1).unwrap_err(),
        "line 1: nest: number too large to fit in target type"
    );
    assert_eq!(parse_repos_lines("1,u\n,u\n", 1).unwrap_err(), "line 2: empty id");
    assert_eq!(parse_repos_lines("1, \n", 1).unwrap_err(), "line 1: empty url");
}

#[test]
fn parse_repos_line_numbers_past_nine() {
    let mut text = String::new();
    for _ in 0..11 {
        text.push_str("# comment\n");
    }
    text.push_str("1\n");
    assert_eq!(
        parse_repos_lines(&text, 1).unwrap_err(),
        "line 12: expected 'id,url[,nest]' (2 or 3 fields), got 1 fields"
    );
}

#[test]
fn parse_repos_nest_forms() {
    let r = parse_repos_lines("1,u,+7\r\n2,u,4294967295", 1).unwrap();
    assert_eq!(r[0], RepoEntry { id: "1".into(), url: "u".into(), nest: 7 });
    assert_eq!(r[1].nest, 4294967295);
    assert!(parse_repos_lines("1,u,-1\n", 1).is_err());
    assert!(parse_repos_lines("1,u,+\n", 1).is_err());
}

#[test]
fn parse_repos_empty_text_is_empty() {
    assert_eq!(parse_repos_lines("", 1).unwrap(), vec![]);
    assert_eq!(parse_repos_lines("\n# only comments\n   \n", 1).unwrap(), vec![]);
}

#[test]
fn resolve_relative_forms() {
    assert_eq!(resolve_relative("config.yml", "repos.csv"), "repos.csv");
    assert_eq!(resolve_relative("conf/config.yml", "repos.csv"), "conf/repos.csv");
    assert_eq!(resolve_relative("/config.yml", "repos.csv"), "/repos.csv");
    assert_eq!(resolve_relative("/", "repos.csv"), "./repos.csv");
    assert_eq!(join_relative(&None, "site/data"), "./site/data");
    assert_eq!(join_relative(&Some("a/".to_string()), "b"), "a/b");
    assert_eq!(join_relative(&Some(String::new()), "b"), "b");
    assert_eq!(join_relative(&Some("a".to_string()), "/b"), "/b");
}

#[test]
fn defaults_are_documented_values() {
    assert_eq!(default_output_dir(), "site/data");
    assert_eq!(default_nest(), 1);
    assert_eq!(Defaults::default().nest, 1);
}
