//! Turning the raw text of a tracked file into its parsed form, by kind.
//! `Dockerfile`s are not parsed; the other kinds are read by their own
//! parser, and a file that cannot be read keeps an empty parsed form.
pub mod gitlab_ci;
pub mod package_json;
pub mod pom_xml;

use vstd::prelude::*;
use crate::json::{Json, json_document};
use crate::model::{FileKind, ParsedFile, ParsedFileV, ParsedUnstructured, parsed_kind, empty_parsed};
use crate::xml::xml_event_stream;
use crate::yaml::yaml_document;
use crate::parser::gitlab_ci::{CiParseError, ci_of_root};
use crate::parser::package_json::{PackageJsonError, package_of};
use crate::parser::pom_xml::{PomXmlError, pom_of_events};

verus! {

/// Why a tracked file could not be parsed.
#[derive(Debug)]
pub enum ParseError {
    PackageJson(PackageJsonError),
    PomXml(PomXmlError),
    GitlabCi(CiParseError),
}

/// The parsed form of `raw` as a file of `kind`, or `None` where that
/// kind's parser refuses it.
pub open spec fn parsed_of(kind: FileKind, raw: Seq<char>) -> Option<ParsedFileV> {
    match kind {
        FileKind::PackageJson => match json_document(raw) {
            Some(Json::Object(o)) => Some(ParsedFileV::PackageJson(package_of(o@))),
            _ => None,
        },
        FileKind::PomXml => match xml_event_stream(raw) {
            Some(evs) => Some(ParsedFileV::PomXml(pom_of_events(evs))),
            None => None,
        },
        FileKind::GitlabCi => match yaml_document(raw) {
            Some(root) => match ci_of_root(root) {
                Some(c) => Some(ParsedFileV::GitlabCi(c)),
                None => None,
            },
            None => None,
        },
        FileKind::Dockerfile => Some(ParsedFileV::Unstructured),
    }
}

/// Parses `raw` as a file of `kind`; what comes back is of that kind.
pub fn parse(kind: FileKind, raw: &str) -> (r: Result<ParsedFile, ParseError>)
    ensures
        match parsed_of(kind, raw@) {
            Some(v) => r matches Ok(p) && p.deep_view() == v,
            None => r is Err,
        },
        r matches Ok(p) ==> parsed_kind(p) == kind,
{
    match kind {
        FileKind::PackageJson => match package_json::parse(raw) {
            Ok(p) => Ok(ParsedFile::PackageJson(p)),
            Err(e) => Err(ParseError::PackageJson(e)),
        },
        FileKind::PomXml => match pom_xml::parse(raw) {
            Ok(p) => Ok(ParsedFile::PomXml(p)),
            Err(e) => Err(ParseError::PomXml(e)),
        },
        FileKind::GitlabCi => match gitlab_ci::parse(raw) {
            Ok(p) => Ok(ParsedFile::GitlabCi(p)),
            Err(e) => Err(ParseError::GitlabCi(e)),
        },
        FileKind::Dockerfile => Ok(ParsedFile::Unstructured(ParsedUnstructured {})),
    }
}

/// The parsed form kept for a tracked file: what `parse` gives, or the
/// empty form of `kind` with the error when parsing fails. Either way it is
/// of kind `kind`.
pub fn parse_or_empty(kind: FileKind, raw: &str) -> (r: (ParsedFile, Option<ParseError>))
    ensures
        parsed_kind(r.0) == kind,
        match parsed_of(kind, raw@) {
            Some(v) => r.0.deep_view() == v && r.1 is None,
            None => r.0.deep_view() == empty_parsed(kind) && r.1 is Some,
        },
{
    match parse(kind, raw) {
        Ok(p) => (p, None),
        Err(e) => (ParsedFile::empty(kind), Some(e)),
    }
}

} // verus!
