use repo_tracker::model::CiInclude;
use repo_tracker::parser::gitlab_ci::parse;

#[test]
fn parses_stages_default_variables() {
    let raw = r#"
stages: [build, test]
default:
  image: node:18
  tags: [docker, linux]
variables:
  CI_REGISTRY: registry.example.com
  TIMEOUT: 30
"#;
    let p = parse(raw).unwrap();
    assert_eq!(p.stages, vec!["build", "test"]);
    let d = p.default.unwrap();
    assert_eq!(d.image.as_deref(), Some("node:18"));
    assert_eq!(d.tags, vec!["docker", "linux"]);
    assert_eq!(p.variables.get("CI_REGISTRY").map(String::as_str), Some("registry.example.com"));
    assert_eq!(p.variables.get("TIMEOUT").map(String::as_str), Some("30"));
}

#[test]
fn variables_object_form_extracts_value() {
    let raw = r#"
variables:
  DEPLOY_TARGET:
    value: staging
    description: deploy target
"#;
    let p = parse(raw).unwrap();
    assert_eq!(p.variables.get("DEPLOY_TARGET").map(String::as_str), Some("staging"));
}

#[test]
fn include_single_string_is_local() {
    let p = parse("include: ci/build.yml").unwrap();
    assert_eq!(p.includes.len(), 1);
    match &p.includes[0] {
        CiInclude::Local { file } => assert_eq!(file, "ci/build.yml"),
        x => panic!("unexpected: {x:?}"),
    }
}

#[test]
fn include_all_5_types() {
    let raw = r#"
include:
  - local: ci/a.yml
  - project: group/templates
    ref: main
    file: ci/java.yml
  - project: group/templates
    files: [a.yml, b.yml]
  - remote: https://example.com/ci.yml
  - template: Jobs/SAST.gitlab-ci.yml
  - component: gitlab.com/comp@1.0
"#;
    let p = parse(raw).unwrap();
    assert_eq!(p.includes.len(), 6);
    assert!(matches!(p.includes[0], CiInclude::Local { .. }));
    assert!(matches!(p.includes[1], CiInclude::Project { .. }));
    assert!(matches!(p.includes[2], CiInclude::Project { .. }));
    assert!(matches!(p.includes[3], CiInclude::Remote { .. }));
    assert!(matches!(p.includes[4], CiInclude::Template { .. }));
    assert!(matches!(p.includes[5], CiInclude::Component { .. }));

    if let CiInclude::Project { project, ref_, files } = &p.includes[1] {
        assert_eq!(project, "group/templates");
        assert_eq!(ref_.as_deref(), Some("main"));
        assert_eq!(files, &vec!["ci/java.yml".to_string()]);
    }
    if let CiInclude::Project { files, .. } = &p.includes[2] {
        assert_eq!(files, &vec!["a.yml".to_string(), "b.yml".to_string()]);
    }
}

#[test]
fn jobs_excluded_from_reserved_keys() {
    let raw = r#"
stages: [build]
build:
  stage: build
  image: node:18
  script:
    - npm ci
    - npm run build
  tags: [docker]
  extends: .base
  needs: [lint]
lint:
  script: eslint .
"#;
    let p = parse(raw).unwrap();
    let names: Vec<_> = p.jobs.iter().map(|j| j.name.as_str()).collect();
    assert!(names.contains(&"build"));
    assert!(names.contains(&"lint"));
    assert!(!names.contains(&"stages"));

    let build = p.jobs.iter().find(|j| j.name == "build").unwrap();
    assert_eq!(build.stage.as_deref(), Some("build"));
    assert_eq!(build.image.as_deref(), Some("node:18"));
    assert_eq!(build.tags, vec!["docker"]);
    assert_eq!(build.extends, vec![".base"]);
    assert_eq!(build.needs, vec!["lint"]);
    assert_eq!(build.script, vec!["npm ci", "npm run build"]);

    let lint = p.jobs.iter().find(|j| j.name == "lint").unwrap();
    assert_eq!(lint.script, vec!["eslint ."]);
}

#[test]
fn needs_with_object_form() {
    let raw = r#"
build:
  needs:
    - lint
    - { job: test, artifacts: true }
"#;
    let p = parse(raw).unwrap();
    assert_eq!(p.jobs[0].needs, vec!["lint", "test"]);
}

#[test]
fn image_object_form() {
    let raw = r#"
build:
  image:
    name: node:18
    entrypoint: ["/bin/sh"]
"#;
    let p = parse(raw).unwrap();
    assert_eq!(p.jobs[0].image.as_deref(), Some("node:18"));
}

#[test]
fn images_field_dedups_default_and_jobs() {
    let raw = r#"
default:
  image: node:18
build:
  image: node:18
test:
  image: alpine:3
"#;
    let p = parse(raw).unwrap();
    // default first, then each job in declaration order
    assert_eq!(p.images, vec!["node:18", "alpine:3"]);
}

#[test]
fn empty_yaml_returns_default() {
    let p = parse("").unwrap();
    assert!(p.stages.is_empty());
    assert!(p.jobs.is_empty());
}

#[test]
fn rejects_non_mapping_root() {
    assert!(parse("- a\n- b\n").is_err());
}

#[test]
fn rejects_malformed_yaml() {
    // unclosed flow sequence
    assert!(parse("stages: [build, test\n").is_err());
}
