//! Assembling what the fetcher writes for one repository: the repository
//! record, each tracked file with its parsed form, the raw bundles by kind,
//! and where each tracked file is written.
use vstd::prelude::*;
use crate::config::{path_joined, join_path};
use crate::gitlab::{ProjectMeta, RawFile};
use crate::model::{CiRawEntry, FileKind, RepoFileRef, Repository, TrackedFile, parsed_kind, empty_parsed};
use crate::parser::{ParseError, parse_or_empty, parsed_of};
use crate::text::{chars_of, push_str_chars, push_decimal, string_from_chars, decimal};

verus! {

impl Repository {
    /// The record of a repository: its project metadata, the time of the
    /// fetch and the tracked files found in it.
    pub fn from_meta(meta: &ProjectMeta, fetched_at: &str, files: Vec<RepoFileRef>) -> (r: Self)
        ensures
            r.id == meta.id,
            r.path@ == meta.path_with_namespace@,
            r.name@ == meta.name@,
            r.url@ == meta.web_url@,
            r.fetched_at@ == fetched_at@,
            r.files@ == files@,
    {
        Repository {
            id: meta.id,
            path: meta.path_with_namespace.clone(),
            name: meta.name.clone(),
            url: meta.web_url.clone(),
            fetched_at: string_from_chars(&chars_of(fetched_at)),
            files,
        }
    }
}

/// Where the tracked file `path` of repository `repo_id` is written under
/// `out_dir`: `files/<repo_id>/<path>.json`, joined as `Path::join` joins.
pub open spec fn tracked_location(out_dir: Seq<char>, repo_id: u64, path: Seq<char>) -> Seq<char> {
    path_joined(path_joined(path_joined(out_dir, "files"@), decimal(repo_id as nat)), path + ".json"@)
}

/// The path of a tracked file's JSON under `out_dir`.
pub fn tracked_file_location(out_dir: &str, repo_id: u64, path: &str) -> (r: String)
    ensures
        r@ == tracked_location(out_dir@, repo_id, path@),
{
    let a = join_path(out_dir, "files");
    let mut id: Vec<char> = Vec::new();
    push_decimal(&mut id, repo_id);
    assert(id@ =~= decimal(repo_id as nat));
    let id = string_from_chars(&id);
    let b = join_path(a.as_str(), id.as_str());
    let mut file = chars_of(path);
    push_str_chars(&mut file, ".json");
    let file = string_from_chars(&file);
    join_path(b.as_str(), file.as_str())
}

/// The raw bundles, one per kind of tracked file.
pub struct RawBundles {
    pub ci: Vec<CiRawEntry>,
    pub pkg: Vec<CiRawEntry>,
    pub pom: Vec<CiRawEntry>,
    pub docker: Vec<CiRawEntry>,
}

impl RawBundles {
    pub fn new() -> (r: Self)
        ensures
            r.ci@.len() == 0,
            r.pkg@.len() == 0,
            r.pom@.len() == 0,
            r.docker@.len() == 0,
    {
        RawBundles { ci: Vec::new(), pkg: Vec::new(), pom: Vec::new(), docker: Vec::new() }
    }

    /// The bundle that holds files of `kind`.
    pub open spec fn bundle(&self, kind: FileKind) -> Seq<CiRawEntry> {
        match kind {
            FileKind::GitlabCi => self.ci@,
            FileKind::PackageJson => self.pkg@,
            FileKind::PomXml => self.pom@,
            FileKind::Dockerfile => self.docker@,
        }
    }

    /// Adds `entry` to the bundle of `kind`; the other bundles are kept:
    /// `.gitlab-ci.yml` files go to `ci`, `package.json` files to `pkg`,
    /// `pom.xml` files to `pom` and `Dockerfile`s to `docker`.
    pub fn add(&mut self, kind: FileKind, entry: CiRawEntry)
        ensures
            final(self).ci@ == if kind == FileKind::GitlabCi {
                old(self).ci@.push(entry)
            } else {
                old(self).ci@
            },
            final(self).pkg@ == if kind == FileKind::PackageJson {
                old(self).pkg@.push(entry)
            } else {
                old(self).pkg@
            },
            final(self).pom@ == if kind == FileKind::PomXml {
                old(self).pom@.push(entry)
            } else {
                old(self).pom@
            },
            final(self).docker@ == if kind == FileKind::Dockerfile {
                old(self).docker@.push(entry)
            } else {
                old(self).docker@
            },
            forall|k: FileKind| #[trigger] final(self).bundle(k) == if k == kind {
                old(self).bundle(k).push(entry)
            } else {
                old(self).bundle(k)
            },
    {
        match kind {
            FileKind::GitlabCi => self.ci.push(entry),
            FileKind::PackageJson => self.pkg.push(entry),
            FileKind::PomXml => self.pom.push(entry),
            FileKind::Dockerfile => self.docker.push(entry),
        }
    }

    /// Appends each bundle of `other` to the bundle of the same kind.
    pub fn extend(&mut self, other: RawBundles)
        ensures
            final(self).ci@ == old(self).ci@ + other.ci@,
            final(self).pkg@ == old(self).pkg@ + other.pkg@,
            final(self).pom@ == old(self).pom@ + other.pom@,
            final(self).docker@ == old(self).docker@ + other.docker@,
            forall|k: FileKind| #[trigger] final(self).bundle(k) == old(self).bundle(k) + other.bundle(k),
    {
        let mut other = other;
        let ghost o = other;
        self.ci.append(&mut other.ci);
        self.pkg.append(&mut other.pkg);
        self.pom.append(&mut other.pom);
        self.docker.append(&mut other.docker);
        assert forall|k: FileKind| #[trigger] self.bundle(k) == old(self).bundle(k) + o.bundle(k) by {
            match k {
                FileKind::GitlabCi => {},
                FileKind::PackageJson => {},
                FileKind::PomXml => {},
                FileKind::Dockerfile => {},
            }
        }
    }
}

/// A fetched file, ready to be written: the tracked file (with its parsed
/// form, or the empty form of its kind and the parse error when parsing
/// fails) and its entry for the raw bundle of its kind.
pub fn track_file(repo_id: u64, file: &RepoFileRef, raw: RawFile) -> (r: (
    TrackedFile,
    CiRawEntry,
    Option<ParseError>,
))
    ensures
        r.0.repo_id == repo_id,
        r.0.path@ == file.path@,
        r.0.kind == file.kind,
        r.0.blob_sha@ == raw.blob_sha@,
        r.0.size == raw.size,
        r.0.raw@ == raw.raw@,
        parsed_kind(r.0.parsed) == file.kind,
        match parsed_of(file.kind, raw.raw@) {
            Some(v) => r.0.parsed.deep_view() == v && r.2 is None,
            None => r.0.parsed.deep_view() == empty_parsed(file.kind) && r.2 is Some,
        },
        r.1.repo_id == repo_id,
        r.1.path@ == file.path@,
        r.1.raw@ == raw.raw@,
{
    let entry = CiRawEntry { repo_id, path: file.path.clone(), raw: raw.raw.clone() };
    let (parsed, err) = parse_or_empty(file.kind, raw.raw.as_str());
    let file_out = TrackedFile {
        repo_id,
        path: file.path.clone(),
        kind: file.kind,
        blob_sha: raw.blob_sha,
        size: raw.size,
        raw: raw.raw,
        parsed,
    };
    (file_out, entry, err)
}

} // verus!
