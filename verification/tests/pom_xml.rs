use repo_tracker::parser::pom_xml::parse;

const SAMPLE: &str = r#"<?xml version="1.0" encoding="UTF-8"?>
<project xmlns="http://maven.apache.org/POM/4.0.0">
  <modelVersion>4.0.0</modelVersion>
  <groupId>com.example</groupId>
  <artifactId>my-app</artifactId>
  <version>1.0.0</version>
  <parent>
    <groupId>org.springframework.boot</groupId>
    <artifactId>spring-boot-starter-parent</artifactId>
    <version>3.2.0</version>
  </parent>
  <properties>
    <java.version>17</java.version>
    <maven.compiler.source>17</maven.compiler.source>
  </properties>
  <dependencies>
    <dependency>
      <groupId>org.junit.jupiter</groupId>
      <artifactId>junit-jupiter</artifactId>
      <version>5.10.0</version>
      <scope>test</scope>
    </dependency>
    <dependency>
      <groupId>com.example.lib</groupId>
      <artifactId>core</artifactId>
    </dependency>
  </dependencies>
  <build>
    <plugins>
      <plugin>
        <groupId>org.apache.maven.plugins</groupId>
        <artifactId>maven-compiler-plugin</artifactId>
        <version>3.11.0</version>
      </plugin>
    </plugins>
  </build>
</project>"#;

#[test]
fn parses_coordinates() {
    let p = parse(SAMPLE).unwrap();
    assert_eq!(p.group_id.as_deref(), Some("com.example"));
    assert_eq!(p.artifact_id.as_deref(), Some("my-app"));
    assert_eq!(p.version.as_deref(), Some("1.0.0"));
}

#[test]
fn parses_parent() {
    let p = parse(SAMPLE).unwrap();
    let parent = p.parent.unwrap();
    assert_eq!(parent.group_id, "org.springframework.boot");
    assert_eq!(parent.artifact_id, "spring-boot-starter-parent");
    assert_eq!(parent.version, "3.2.0");
}

#[test]
fn parses_properties_with_dots_in_names() {
    let p = parse(SAMPLE).unwrap();
    assert_eq!(p.properties.get("java.version").map(String::as_str), Some("17"));
    assert_eq!(p.properties.get("maven.compiler.source").map(String::as_str), Some("17"));
}

#[test]
fn parses_dependencies_with_optional_fields() {
    let p = parse(SAMPLE).unwrap();
    assert_eq!(p.dependencies.len(), 2);
    let junit = &p.dependencies[0];
    assert_eq!(junit.group_id, "org.junit.jupiter");
    assert_eq!(junit.artifact_id, "junit-jupiter");
    assert_eq!(junit.version.as_deref(), Some("5.10.0"));
    assert_eq!(junit.scope.as_deref(), Some("test"));
    let core = &p.dependencies[1];
    assert_eq!(core.version, None);
    assert_eq!(core.scope, None);
}

#[test]
fn parses_plugins() {
    let p = parse(SAMPLE).unwrap();
    assert_eq!(p.plugins.len(), 1);
    assert_eq!(p.plugins[0].artifact_id, "maven-compiler-plugin");
    assert_eq!(p.plugins[0].version.as_deref(), Some("3.11.0"));
}

#[test]
fn ignores_unknown_top_level_elements() {
    let raw = r#"<project>
            <groupId>g</groupId>
            <artifactId>a</artifactId>
            <description>blah blah</description>
            <modules><module>m1</module></modules>
        </project>"#;
    let p = parse(raw).unwrap();
    assert_eq!(p.group_id.as_deref(), Some("g"));
    assert_eq!(p.artifact_id.as_deref(), Some("a"));
    // description and modules are ignored
    assert!(p.properties.is_empty());
}

#[test]
fn handles_namespace_prefix() {
    // some poms use an explicit prefix; the local name is what counts
    let raw = r#"<pom:project xmlns:pom="http://maven.apache.org/POM/4.0.0">
            <pom:groupId>g</pom:groupId>
            <pom:artifactId>a</pom:artifactId>
        </pom:project>"#;
    let p = parse(raw).unwrap();
    assert_eq!(p.group_id.as_deref(), Some("g"));
    assert_eq!(p.artifact_id.as_deref(), Some("a"));
}

#[test]
fn rejects_malformed_xml() {
    // mismatched end tag
    assert!(parse("<a>foo</b>").is_err());
}
