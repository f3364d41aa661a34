//! Collects `.gitlab-ci.yml`, `package.json`, `pom.xml` and `Dockerfile`
//! files of GitLab repositories and extracts their searchable structure.
pub mod text;
pub mod config;
pub mod model;
pub mod yaml;
pub mod parser;
pub mod json;
pub mod xml;
pub mod gitlab;
pub mod collect;
