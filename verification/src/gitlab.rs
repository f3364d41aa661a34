//! The GitLab API as the fetcher uses it: the request URLs, the decoding of
//! a file response, the classification of tracked file names, and the walk
//! over repository trees down to a given depth. The requests themselves are
//! made by the caller.
use vstd::prelude::*;
use crate::model::{FileKind, RepoFileRef};
use crate::text::{
    str_eq, chars_of, push_str_chars, string_from_chars, trim_end_matches,
    trim_end_matches_chars, digit_char, string_from_utf8, push_dv, contains_str,
};

verus! {

/// What `/projects/:id` answers with, as far as the fetcher reads it.
#[derive(Debug, Clone)]
pub struct ProjectMeta {
    pub id: u64,
    pub name: String,
    pub path_with_namespace: String,
    pub web_url: String,
    pub default_branch: String,
}

/// A file's content as fetched: its blob id, its size and its text.
#[derive(Debug, Clone)]
pub struct RawFile {
    pub blob_sha: String,
    pub size: u64,
    pub raw: String,
}

// ---------- URLs ----------

/// Bytes left as they are by `urlencoding::encode`: ASCII letters and
/// digits, `-`, `.`, `_`, `~`.
pub open spec fn is_unreserved(b: u8) -> bool {
    ||| (48 <= b && b <= 57)
    ||| (65 <= b && b <= 90)
    ||| (97 <= b && b <= 122)
    ||| b == 45
    ||| b == 46
    ||| b == 95
    ||| b == 126
}

/// The upper-case hexadecimal digit for `d < 16`.
pub open spec fn hex_digit(d: nat) -> char {
    if d < 10 {
        digit_char(d)
    } else {
        ((d - 10 + 65) as u32) as char
    }
}

pub open spec fn encode_byte(b: u8) -> Seq<char> {
    if is_unreserved(b) {
        seq![(b as u32) as char]
    } else {
        seq!['%', hex_digit((b / 16) as nat), hex_digit((b % 16) as nat)]
    }
}

/// Percent-encoding of each byte, in order.
pub open spec fn percent_encode(bytes: Seq<u8>) -> Seq<char>
    decreases bytes.len(),
{
    if bytes.len() == 0 {
        Seq::empty()
    } else {
        encode_byte(bytes[0]) + percent_encode(bytes.drop_first())
    }
}

/// `urlencoding::encode`: every byte of the UTF-8 text except ASCII letters,
/// digits and `-._~` becomes `%` and two upper-case hex digits.
pub open spec fn url_encoded(s: Seq<char>) -> Seq<char> {
    percent_encode(vstd::utf8::encode_utf8(s))
}

/// `urlencoding::encode`, whose documented and implemented behaviour is
/// what `url_encoded` states.
#[verifier::external_body]
fn url_encode(s: &str) -> (r: String)
    ensures
        r@ == url_encoded(s@),
{
    urlencoding::encode(s).into_owned()
}

/// The base URL without trailing `/`s, then `/api/v4/projects/` and the
/// encoded project.
pub open spec fn project_url(base_url: Seq<char>, project: Seq<char>) -> Seq<char> {
    trim_end_matches(base_url, seq!['/']) + "/api/v4/projects/"@ + url_encoded(project)
}

fn project_url_chars(base_url: &str, project: &str) -> (r: Vec<char>)
    ensures
        r@ == project_url(base_url@, project@),
{
    let slash = vec!['/'];
    assert(slash@ == seq!['/']);
    let mut v = trim_end_matches_chars(&chars_of(base_url), &slash);
    push_str_chars(&mut v, "/api/v4/projects/");
    push_str_chars(&mut v, url_encode(project).as_str());
    v
}

/// `GET /projects/:id`.
pub fn project_meta_url(base_url: &str, project: &str) -> (r: String)
    ensures
        r@ == project_url(base_url@, project@),
{
    string_from_chars(&project_url_chars(base_url, project))
}

/// `GET /projects/:id/repository/files/:path?ref=...`.
pub fn file_url(base_url: &str, project: &str, ref_: &str, path: &str) -> (r: String)
    ensures
        r@ == project_url(base_url@, project@) + "/repository/files/"@ + url_encoded(path@)
            + "?ref="@ + url_encoded(ref_@),
{
    let mut v = project_url_chars(base_url, project);
    push_str_chars(&mut v, "/repository/files/");
    push_str_chars(&mut v, url_encode(path).as_str());
    push_str_chars(&mut v, "?ref=");
    push_str_chars(&mut v, url_encode(ref_).as_str());
    string_from_chars(&v)
}

/// `GET /projects/:id/repository/tree?per_page=100[&path=...]`; the root
/// directory (empty `path`) is listed without a `path` parameter.
pub fn tree_url(base_url: &str, project: &str, path: &str) -> (r: String)
    ensures
        r@ == project_url(base_url@, project@) + "/repository/tree?per_page=100"@ + (if path@.len()
            == 0 {
            Seq::<char>::empty()
        } else {
            "&path="@ + url_encoded(path@)
        }),
{
    let mut v = project_url_chars(base_url, project);
    push_str_chars(&mut v, "/repository/tree?per_page=100");
    let ghost before = v@;
    if !path.is_empty() {
        push_str_chars(&mut v, "&path=");
        let enc = url_encode(path);
        push_str_chars(&mut v, enc.as_str());
        assert(v@ =~= before + ("&path="@ + url_encoded(path@)));
    } else {
        assert(v@ =~= before + Seq::<char>::empty());
    }
    string_from_chars(&v)
}

// ---------- file kinds ----------

/// The kind of file that a name stands for, by exact match.
pub open spec fn kind_of_name(name: Seq<char>) -> Option<FileKind> {
    if name == "package.json"@ {
        Some(FileKind::PackageJson)
    } else if name == "pom.xml"@ {
        Some(FileKind::PomXml)
    } else if name == ".gitlab-ci.yml"@ {
        Some(FileKind::GitlabCi)
    } else if name == "Dockerfile"@ {
        Some(FileKind::Dockerfile)
    } else {
        None
    }
}

/// Classifies a file name: `package.json`, `pom.xml`, `.gitlab-ci.yml` and
/// `Dockerfile` are tracked; any other name is not.
pub fn classify(name: &str) -> (r: Option<FileKind>)
    ensures
        r == kind_of_name(name@),
{
    if str_eq(name, "package.json") {
        Some(FileKind::PackageJson)
    } else if str_eq(name, "pom.xml") {
        Some(FileKind::PomXml)
    } else if str_eq(name, ".gitlab-ci.yml") {
        Some(FileKind::GitlabCi)
    } else if str_eq(name, "Dockerfile") {
        Some(FileKind::Dockerfile)
    } else {
        None
    }
}

/// A name is classified exactly when it is one of the four tracked names,
/// and each of them gets its own kind: `package.json` is a package
/// manifest, `pom.xml` a Maven project, `.gitlab-ci.yml` a CI
/// configuration and `Dockerfile` a Dockerfile. Any other name, however
/// close (`package-lock.json`, `Pom.xml`), is not tracked.
pub proof fn only_tracked_names_are_classified(name: Seq<char>)
    ensures
        kind_of_name(name) == Some(FileKind::PackageJson) <==> name == "package.json"@,
        kind_of_name(name) == Some(FileKind::PomXml) <==> name == "pom.xml"@,
        kind_of_name(name) == Some(FileKind::GitlabCi) <==> name == ".gitlab-ci.yml"@,
        kind_of_name(name) == Some(FileKind::Dockerfile) <==> name == "Dockerfile"@,
        kind_of_name(name) is None <==> (name != "package.json"@ && name != "pom.xml"@ && name
            != ".gitlab-ci.yml"@ && name != "Dockerfile"@),
{
    reveal_strlit("package.json");
    reveal_strlit("pom.xml");
    reveal_strlit(".gitlab-ci.yml");
    reveal_strlit("Dockerfile");
    assert("package.json"@.len() == 12);
    assert("pom.xml"@.len() == 7);
    assert(".gitlab-ci.yml"@.len() == 14);
    assert("Dockerfile"@.len() == 10);
}

/// The names of the files the fetcher looks for.
pub open spec fn tracked_names() -> Seq<Seq<char>> {
    seq![".gitlab-ci.yml"@, "package.json"@, "pom.xml"@, "Dockerfile"@]
}

/// The names of the files the fetcher looks for: `.gitlab-ci.yml`,
/// `package.json`, `pom.xml` and `Dockerfile`.
pub fn default_targets() -> (r: Vec<String>)
    ensures
        r.deep_view() == tracked_names(),
{
    let mut v: Vec<String> = Vec::new();
    push_dv(&mut v, String::from_str(".gitlab-ci.yml"));
    push_dv(&mut v, String::from_str("package.json"));
    push_dv(&mut v, String::from_str("pom.xml"));
    push_dv(&mut v, String::from_str("Dockerfile"));
    assert(v.deep_view() =~= tracked_names());
    v
}

/// Every name the fetcher looks for is classified.
pub proof fn tracked_names_classified()
    ensures
        forall|i: int| 0 <= i < tracked_names().len() ==> (#[trigger] kind_of_name(tracked_names()[i])) is Some,
{
}

// ---------- file content ----------

#[verifier::external_type_specification]
#[verifier::external_body]
pub struct ExDecodeError(base64::DecodeError);

/// What `base64::engine::general_purpose::STANDARD.decode` makes of the
/// bytes of `text`, or `None` where it reports an error.
pub uninterp spec fn base64_standard(text: Seq<char>) -> Option<Seq<u8>>;

/// Decodes standard (padded) base64 with the `base64` crate. The result is
/// named by `base64_standard`; the alphabet and padding rules are not
/// written out here.
#[verifier::external_body]
fn base64_decode(text: &str) -> (r: Result<Vec<u8>, base64::DecodeError>)
    ensures
        match r {
            Ok(b) => base64_standard(text@) == Some(b@),
            Err(_) => base64_standard(text@) is None,
        },
{
    base64::Engine::decode(&base64::engine::general_purpose::STANDARD, text)
}

/// Why a file response could not be turned into text.
#[derive(Debug)]
pub enum FileError {
    /// The response was not base64; the encoding it named is kept.
    UnexpectedEncoding(String),
    /// The content was not valid base64.
    Base64(base64::DecodeError),
    /// The decoded content was not UTF-8; the decoding error says where.
    NotUtf8(std::string::FromUtf8Error),
}

/// The text of a file response whose content is `content` in `encoding`:
/// the content must be base64 whose decoded bytes are UTF-8.
pub open spec fn file_text(encoding: Seq<char>, content: Seq<char>) -> Option<Seq<char>> {
    if encoding != "base64"@ {
        None
    } else {
        match base64_standard(content) {
            Some(b) => if vstd::utf8::valid_utf8(b) {
                Some(vstd::utf8::decode_utf8(b))
            } else {
                None
            },
            None => None,
        }
    }
}

/// Turns the fields of a `/repository/files/:path` response into a
/// `RawFile`: only base64 content is accepted, and it must decode to UTF-8.
pub fn decode_file_response(size: u64, encoding: &str, blob_id: &str, content: &str) -> (r: Result<
    RawFile,
    FileError,
>)
    ensures
        match file_text(encoding@, content@) {
            Some(t) => r matches Ok(f) && f.raw@ == t && f.blob_sha@ == blob_id@ && f.size
                == size,
            None => r is Err,
        },
        encoding@ != "base64"@ ==> (r matches Err(FileError::UnexpectedEncoding(e)) && e@
            == encoding@),
        encoding@ == "base64"@ && base64_standard(content@) is None ==> r matches Err(
            FileError::Base64(_),
        ),
        encoding@ == "base64"@ ==> match base64_standard(content@) {
            Some(b) => !vstd::utf8::valid_utf8(b) ==> r matches Err(FileError::NotUtf8(_)),
            None => true,
        },
{
    if !str_eq(encoding, "base64") {
        return Err(FileError::UnexpectedEncoding(string_from_chars(&chars_of(encoding))));
    }
    let bytes = match base64_decode(content) {
        Ok(b) => b,
        Err(e) => return Err(FileError::Base64(e)),
    };
    match string_from_utf8(bytes) {
        Ok(raw) => Ok(
            RawFile {
                blob_sha: string_from_chars(&chars_of(blob_id)),
                size,
                raw,
            },
        ),
        Err(e) => Err(FileError::NotUtf8(e)),
    }
}


// ---------- tree walk ----------

/// One entry of a `/repository/tree` listing.
#[derive(Debug, Clone)]
pub struct TreeEntry {
    pub name: String,
    /// `blob` for a file, `tree` for a directory.
    pub kind: String,
    pub path: String,
}

/// An entry as (name, kind, path).
pub type EntryV = (Seq<char>, Seq<char>, Seq<char>);

impl DeepView for TreeEntry {
    type V = EntryV;

    open spec fn deep_view(&self) -> EntryV {
        (self.name@, self.kind@, self.path@)
    }
}

/// A directory listing service: what `/repository/tree` lists for a path.
pub type Listing = spec_fn(Seq<char>) -> Seq<EntryV>;

/// The tracked files under directory `path`, `rem` more levels deep, in the
/// order of a depth-first walk that follows each listing's order: a blob
/// whose name is among `targets` and is classified is collected; a tree is
/// entered while levels remain.
pub open spec fn visit_dir(l: Listing, targets: Seq<Seq<char>>, path: Seq<char>, rem: nat) -> Seq<
    (FileKind, Seq<char>),
>
    decreases rem, 1nat, 0nat,
{
    visit_entries(l, targets, l(path), rem)
}

pub open spec fn visit_entries(l: Listing, targets: Seq<Seq<char>>, es: Seq<EntryV>, rem: nat) -> Seq<
    (FileKind, Seq<char>),
>
    decreases rem, 0nat, es.len(),
{
    if es.len() == 0 {
        Seq::empty()
    } else {
        let e = es[0];
        let here = if e.1 == "blob"@ && targets.contains(e.0) {
            match kind_of_name(e.0) {
                Some(k) => seq![(k, e.2)],
                None => Seq::empty(),
            }
        } else if e.1 == "tree"@ && rem > 0 {
            visit_dir(l, targets, e.2, (rem - 1) as nat)
        } else {
            Seq::empty()
        };
        here + visit_entries(l, targets, es.drop_first(), rem)
    }
}

/// Whether a collected file's kind is that of one of the target names.
pub open spec fn kind_of_target(targets: Seq<Seq<char>>, x: (FileKind, Seq<char>)) -> bool {
    exists|t: Seq<char>| targets.contains(t) && kind_of_name(t) == Some(x.0)
}

proof fn lemma_visit_entries_kinds(l: Listing, targets: Seq<Seq<char>>, es: Seq<EntryV>, rem: nat)
    ensures
        forall|i: int|
            0 <= i < visit_entries(l, targets, es, rem).len() ==> kind_of_target(
                targets,
                #[trigger] visit_entries(l, targets, es, rem)[i],
            ),
    decreases rem, 0nat, es.len(),
{
    if es.len() > 0 {
        let e = es[0];
        lemma_visit_entries_kinds(l, targets, es.drop_first(), rem);
        let rest = visit_entries(l, targets, es.drop_first(), rem);
        let here = if e.1 == "blob"@ && targets.contains(e.0) {
            match kind_of_name(e.0) {
                Some(k) => seq![(k, e.2)],
                None => Seq::empty(),
            }
        } else if e.1 == "tree"@ && rem > 0 {
            visit_dir(l, targets, e.2, (rem - 1) as nat)
        } else {
            Seq::empty()
        };
        if e.1 == "blob"@ && targets.contains(e.0) {
        } else if e.1 == "tree"@ && rem > 0 {
            lemma_visit_dir_kinds(l, targets, e.2, (rem - 1) as nat);
        }
        assert forall|i: int|
            0 <= i < visit_entries(l, targets, es, rem).len() implies kind_of_target(
            targets,
            #[trigger] visit_entries(l, targets, es, rem)[i],
        ) by {
            assert(visit_entries(l, targets, es, rem) == here + rest);
            if i < here.len() {
                if e.1 == "blob"@ && targets.contains(e.0) {
                    assert(kind_of_name(e.0) == Some(here[i].0));
                } else {
                    assert(here[i] == visit_dir(l, targets, e.2, (rem - 1) as nat)[i]);
                }
            } else {
                assert(visit_entries(l, targets, es, rem)[i] == rest[i - here.len()]);
            }
        }
    }
}

proof fn lemma_visit_dir_kinds(l: Listing, targets: Seq<Seq<char>>, path: Seq<char>, rem: nat)
    ensures
        forall|i: int|
            0 <= i < visit_dir(l, targets, path, rem).len() ==> kind_of_target(
                targets,
                #[trigger] visit_dir(l, targets, path, rem)[i],
            ),
    decreases rem, 1nat, 0nat,
{
    lemma_visit_entries_kinds(l, targets, l(path), rem);
    assert(visit_dir(l, targets, path, rem) == visit_entries(l, targets, l(path), rem));
}

/// A walk collects only files whose kind is that of one of its target
/// names.
pub proof fn walk_collects_targets_only(l: Listing, targets: Seq<Seq<char>>, path: Seq<char>, rem: nat)
    ensures
        forall|i: int|
            0 <= i < visit_dir(l, targets, path, rem).len() ==> kind_of_target(
                targets,
                #[trigger] visit_dir(l, targets, path, rem)[i],
            ),
{
    lemma_visit_dir_kinds(l, targets, path, rem);
}

/// The work left in the open directories, innermost first.
pub open spec fn frames_work(l: Listing, targets: Seq<Seq<char>>, fs: Seq<(Seq<EntryV>, nat)>) -> Seq<
    (FileKind, Seq<char>),
>
    decreases fs.len(),
{
    if fs.len() == 0 {
        Seq::empty()
    } else {
        visit_entries(l, targets, fs.last().0, fs.last().1) + frames_work(l, targets, fs.drop_last())
    }
}

/// Everything a walk will have found once `l` has answered all its
/// requests: what it has found, then what the awaited directory holds, then
/// what is left of the open directories.
pub open spec fn walk_total(
    l: Listing,
    targets: Seq<Seq<char>>,
    found: Seq<(FileKind, Seq<char>)>,
    pending: Option<(Seq<char>, nat)>,
    fs: Seq<(Seq<EntryV>, nat)>,
) -> Seq<(FileKind, Seq<char>)> {
    found + match pending {
        Some((p, r)) => visit_dir(l, targets, p, r),
        None => Seq::empty(),
    } + frames_work(l, targets, fs)
}

/// An open directory: its entries, how many have been handled, and how
/// many levels remain below it.
struct Frame {
    entries: Vec<TreeEntry>,
    next: usize,
    remaining: u32,
}

spec fn frame_view(f: Frame) -> (Seq<EntryV>, nat) {
    (f.entries.deep_view().skip(f.next as int), f.remaining as nat)
}

spec fn frames_view(fs: Seq<Frame>) -> Seq<(Seq<EntryV>, nat)> {
    fs.map_values(|f: Frame| frame_view(f))
}

spec fn frames_ok(fs: Seq<Frame>) -> bool {
    forall|i: int| 0 <= i < fs.len() ==> #[trigger] fs[i].next <= fs[i].entries@.len()
}

spec fn pending_view(p: Option<(String, u32)>) -> Option<(Seq<char>, nat)> {
    match p {
        Some((s, r)) => Some((s@, r as nat)),
        None => None,
    }
}

/// What handling entry `e` collects at once: the entry itself, where it is
/// a blob whose name is a classified target.
pub open spec fn entry_found(targets: Seq<Seq<char>>, e: EntryV) -> Seq<(FileKind, Seq<char>)> {
    if e.1 == "blob"@ && targets.contains(e.0) {
        match kind_of_name(e.0) {
            Some(k) => seq![(k, e.2)],
            None => Seq::empty(),
        }
    } else {
        Seq::empty()
    }
}

/// The directory that handling entry `e`, `rem` levels deep, enters, with
/// the levels left below it.
pub open spec fn entry_subdir(targets: Seq<Seq<char>>, e: EntryV, rem: nat) -> Option<
    (Seq<char>, nat),
> {
    if e.1 == "blob"@ && targets.contains(e.0) {
        None
    } else if e.1 == "tree"@ && rem > 0 {
        Some((e.2, (rem - 1) as nat))
    } else {
        None
    }
}

/// Handling the first entry of the innermost open directory leaves what the
/// walk will find unchanged: the entry's own hit joins what was found, and
/// the directory it enters becomes the awaited one.
proof fn lemma_walk_entry(
    l: Listing,
    targets: Seq<Seq<char>>,
    found: Seq<(FileKind, Seq<char>)>,
    outer: Seq<(Seq<EntryV>, nat)>,
    es: Seq<EntryV>,
    rem: nat,
)
    requires
        es.len() > 0,
    ensures
        walk_total(l, targets, found, None, outer.push((es, rem))) == walk_total(
            l,
            targets,
            found + entry_found(targets, es[0]),
            entry_subdir(targets, es[0], rem),
            outer.push((es.drop_first(), rem)),
        ),
{
    assert(outer.push((es, rem)).drop_last() =~= outer);
    assert(outer.push((es.drop_first(), rem)).drop_last() =~= outer);
    let rest = frames_work(l, targets, outer);
    let later = visit_entries(l, targets, es.drop_first(), rem);
    let sub = match entry_subdir(targets, es[0], rem) {
        Some((p, r)) => visit_dir(l, targets, p, r),
        None => Seq::empty(),
    };
    assert(visit_entries(l, targets, es, rem) == entry_found(targets, es[0]) + sub + later);
    assert(walk_total(l, targets, found, None, outer.push((es, rem))) =~= found + (entry_found(
        targets,
        es[0],
    ) + sub + later) + rest);
}

/// Closing an open directory with no entries left leaves what the walk will
/// find unchanged.
proof fn lemma_walk_close(
    l: Listing,
    targets: Seq<Seq<char>>,
    found: Seq<(FileKind, Seq<char>)>,
    outer: Seq<(Seq<EntryV>, nat)>,
    rem: nat,
)
    ensures
        walk_total(l, targets, found, None, outer.push((Seq::empty(), rem))) == walk_total(
            l,
            targets,
            found,
            None,
            outer,
        ),
{
    assert(outer.push((Seq::<EntryV>::empty(), rem)).drop_last() =~= outer);
    assert(walk_total(l, targets, found, None, outer.push((Seq::empty(), rem))) =~= walk_total(
        l,
        targets,
        found,
        None,
        outer,
    ));
}

/// Handles the entries of the open directories, innermost first, until one
/// of them is a directory to enter (whose path and remaining depth are
/// returned) or none are left. What was found stays, and the hits are
/// appended after it.
fn advance(targets: &Vec<String>, frames: &mut Vec<Frame>, found: &mut Vec<RepoFileRef>) -> (r:
    Option<(String, u32)>)
    requires
        frames_ok(old(frames)@),
    ensures
        frames_ok(final(frames)@),
        r is None ==> final(frames)@.len() == 0,
        old(found).deep_view().is_prefix_of(final(found).deep_view()),
        forall|l: Listing|
            #![trigger frames_work(l, targets.deep_view(), frames_view(final(frames)@))]
            walk_total(
                l,
                targets.deep_view(),
                final(found).deep_view(),
                pending_view(r),
                frames_view(final(frames)@),
            ) == walk_total(
                l,
                targets.deep_view(),
                old(found).deep_view(),
                None,
                frames_view(old(frames)@),
            ),
{
    let ghost tv = targets.deep_view();
    let ghost found0 = found.deep_view();
    let ghost frames0 = frames_view(frames@);
    loop
        invariant
            tv == targets.deep_view(),
            found0 == old(found).deep_view(),
            frames0 == frames_view(old(frames)@),
            frames_ok(frames@),
            found0.is_prefix_of(found.deep_view()),
            forall|l: Listing|
                #![trigger frames_work(l, tv, frames_view(frames@))]
                walk_total(l, tv, found.deep_view(), None, frames_view(frames@)) == walk_total(
                    l,
                    tv,
                    found0,
                    None,
                    frames0,
                ),
        decreases frames@.len(), (if frames@.len() > 0 {
            frames@.last().entries@.len() - frames@.last().next
        } else {
            0
        }),
    {
        if frames.len() == 0 {
            return None;
        }
        let ghost fs_before = frames@;
        let ghost found_before = found.deep_view();
        let mut top = frames.pop().unwrap();
        assert(frames@ == fs_before.drop_last());
        assert(frames_view(fs_before) =~= frames_view(frames@).push(frame_view(top)));
        assert(top.next <= top.entries@.len()) by {
            assert(fs_before[fs_before.len() - 1] == top);
        }
        let rem = top.remaining;
        if top.next >= top.entries.len() {
            assert(frame_view(top).0 =~= Seq::<EntryV>::empty());
            assert forall|l: Listing|
                #![trigger frames_work(l, tv, frames_view(frames@))]
                walk_total(l, tv, found.deep_view(), None, frames_view(frames@)) == walk_total(
                    l,
                    tv,
                    found0,
                    None,
                    frames0,
                ) by {
                lemma_walk_close(l, tv, found_before, frames_view(frames@), rem as nat);
            }
            continue ;
        }
        let i = top.next;
        let name = top.entries[i].name.clone();
        let kind = top.entries[i].kind.clone();
        let path = top.entries[i].path.clone();
        let ghost es = frame_view(top).0;
        assert(es[0] == (name@, kind@, path@)) by {
            assert(top.entries.deep_view()[i as int] == top.entries@[i as int].deep_view());
        }
        top.next = i + 1;
        assert(frame_view(top).0 == es.drop_first());
        let ghost fs_mid = frames@;
        frames.push(top);
        assert(frames_view(frames@) =~= frames_view(fs_mid).push((es.drop_first(), rem as nat)));
        assert(frames_ok(frames@)) by {
            assert forall|j: int| 0 <= j < frames@.len() implies #[trigger] frames@[j].next
                <= frames@[j].entries@.len() by {
                if j < frames@.len() - 1 {
                    assert(frames@[j] == fs_before[j]);
                }
            }
        }
        let r: Option<(String, u32)> = if str_eq(kind.as_str(), "blob") && contains_str(
            targets,
            name.as_str(),
        ) {
            match classify(name.as_str()) {
                Some(k) => push_dv(found, RepoFileRef { kind: k, path }),
                None => {},
            }
            None
        } else if str_eq(kind.as_str(), "tree") && rem > 0 {
            Some((path, rem - 1))
        } else {
            None
        };
        assert(found.deep_view() =~= found_before + entry_found(tv, es[0]));
        assert(pending_view(r) == entry_subdir(tv, es[0], rem as nat));
        assert forall|l: Listing|
            #![trigger frames_work(l, tv, frames_view(frames@))]
            walk_total(l, tv, found.deep_view(), pending_view(r), frames_view(frames@))
                == walk_total(l, tv, found0, None, frames0) by {
            lemma_walk_entry(l, tv, found_before, frames_view(fs_mid), es, rem as nat);
        }
        if r.is_some() {
            return r;
        }
    }
}


/// A depth-first walk over a repository's trees that collects the tracked
/// files, driven by its caller: the walk names the directory whose listing
/// it needs (`next_request`), and the caller hands that listing back
/// (`deliver`), until the walk is done.
pub struct TreeWalk {
    targets: Vec<String>,
    frames: Vec<Frame>,
    pending: Option<(String, u32)>,
    found: Vec<RepoFileRef>,
}

impl TreeWalk {
    #[verifier::type_invariant]
    spec fn wf(&self) -> bool {
        &&& frames_ok(self.frames@)
        &&& self.pending is None ==> self.frames@.len() == 0
    }

    /// The names of the files to collect.
    pub closed spec fn targets(&self) -> Seq<Seq<char>> {
        self.targets.deep_view()
    }

    /// What has been collected so far, in order.
    pub closed spec fn found(&self) -> Seq<(FileKind, Seq<char>)> {
        self.found.deep_view()
    }

    /// The directory whose listing is awaited, with the depth left below it.
    pub closed spec fn pending(&self) -> Option<(Seq<char>, nat)> {
        pending_view(self.pending)
    }

    /// The path of the awaited directory (empty when none is awaited).
    pub open spec fn awaited(&self) -> Seq<char> {
        match self.pending() {
            Some((p, _)) => p,
            None => Seq::empty(),
        }
    }

    /// The depth left below the awaited directory (0 when none is awaited).
    pub open spec fn awaited_depth(&self) -> nat {
        match self.pending() {
            Some((_, r)) => r,
            None => 0,
        }
    }

    /// The entries still to handle in the open directories, innermost last.
    pub closed spec fn open_dirs(&self) -> Seq<(Seq<EntryV>, nat)> {
        frames_view(self.frames@)
    }

    /// Everything the walk will have found once `l` has answered all its
    /// requests.
    pub open spec fn total(&self, l: Listing) -> Seq<(FileKind, Seq<char>)> {
        walk_total(l, self.targets(), self.found(), self.pending(), self.open_dirs())
    }

    /// A walk of the repository root, `nest` levels deep, collecting the
    /// files named in `targets`.
    pub fn new(nest: u32, targets: Vec<String>) -> (r: Self)
        ensures
            r.targets() == targets.deep_view(),
            r.found().len() == 0,
            r.pending() == Some((Seq::<char>::empty(), nest as nat)),
            r.open_dirs().len() == 0,
            forall|l: Listing| #[trigger] r.total(l) == visit_dir(l, targets.deep_view(), Seq::empty(), nest as nat),
    {
        let r = TreeWalk {
            targets,
            frames: Vec::new(),
            pending: Some((String::new(), nest)),
            found: Vec::new(),
        };
        assert(r.found.deep_view() =~= Seq::<(FileKind, Seq<char>)>::empty());
        assert(frames_view(r.frames@) =~= Seq::<(Seq<EntryV>, nat)>::empty());
        assert forall|l: Listing| #[trigger] r.total(l) == visit_dir(l, targets.deep_view(), Seq::empty(), nest as nat) by {
            assert(r.total(l) =~= visit_dir(l, targets.deep_view(), Seq::empty(), nest as nat));
        }
        r
    }

    /// The path of the directory whose listing the walk needs next, or
    /// `None` when the walk is done.
    pub fn next_request(&self) -> (r: Option<String>)
        ensures
            match self.pending() {
                Some((p, _)) => r matches Some(s) && s@ == p,
                None => r is None,
            },
    {
        match &self.pending {
            Some((p, _)) => Some(p.clone()),
            None => None,
        }
    }

    /// Whether every requested listing has been delivered and handled.
    pub fn is_done(&self) -> (r: bool)
        ensures
            r == (self.pending() is None),
            r ==> self.open_dirs().len() == 0,
    {
        proof {
            use_type_invariant(self);
        }
        self.pending.is_none()
    }

    /// Hands over the listing of the requested directory; the walk handles
    /// entries until it needs another listing or is done. What remains to be
    /// found is then what had been found, followed by the walk of the
    /// delivered entries (at the awaited depth) and of the directories that
    /// were already open, whatever later listings say. What had been found
    /// stays at the front of what is found.
    pub fn deliver(&mut self, entries: Vec<TreeEntry>)
        requires
            old(self).pending() is Some,
        ensures
            final(self).targets() == old(self).targets(),
            old(self).found().is_prefix_of(final(self).found()),
            final(self).pending() is None ==> final(self).open_dirs().len() == 0,
            forall|l: Listing|
                #[trigger] final(self).total(l) == walk_total(
                    l,
                    old(self).targets(),
                    old(self).found(),
                    None,
                    old(self).open_dirs().push((entries.deep_view(), old(self).awaited_depth())),
                ),
            forall|l: Listing|
                l(old(self).awaited()) == entries.deep_view() ==> #[trigger] final(self).total(l)
                    == old(self).total(l),
    {
        proof {
            use_type_invariant(&*self);
        }
        let ghost old_total_of = |l: Listing| old(self).total(l);
        let mut frames: Vec<Frame> = Vec::new();
        std::mem::swap(&mut frames, &mut self.frames);
        let mut pending: Option<(String, u32)> = None;
        std::mem::swap(&mut pending, &mut self.pending);
        let mut found: Vec<RepoFileRef> = Vec::new();
        std::mem::swap(&mut found, &mut self.found);
        let mut targets: Vec<String> = Vec::new();
        std::mem::swap(&mut targets, &mut self.targets);
        let (path, rem) = pending.unwrap();
        let ghost es = entries.deep_view();
        let ghost fs0 = frames@;
        let frame = Frame { entries, next: 0, remaining: rem };
        assert(frame_view(frame).0 == es);
        frames.push(frame);
        assert(frames_view(frames@) =~= frames_view(fs0).push((es, rem as nat)));
        assert(frames_view(frames@).drop_last() == frames_view(fs0));
        assert(frames_ok(frames@)) by {
            assert forall|j: int| 0 <= j < frames@.len() implies #[trigger] frames@[j].next
                <= frames@[j].entries@.len() by {
                if j < frames@.len() - 1 {
                    assert(frames@[j] == fs0[j]);
                }
            }
        }
        let ghost tv = targets.deep_view();
        let ghost found0 = found.deep_view();
        assert forall|l: Listing| l(path@) == es implies walk_total(l, tv, found0, None, frames_view(frames@))
            == old_total_of(l) by {
            assert(walk_total(l, tv, found0, None, frames_view(frames@)) =~= old_total_of(l));
        }
        let ghost pushed = frames_view(frames@);
        assert(pushed == old(self).open_dirs().push((es, old(self).awaited_depth())));
        let next = advance(&targets, &mut frames, &mut found);
        *self = TreeWalk { targets, frames, pending: next, found };
        assert forall|l: Listing| #[trigger] self.total(l) == walk_total(
            l,
            old(self).targets(),
            old(self).found(),
            None,
            old(self).open_dirs().push((es, old(self).awaited_depth())),
        ) by {
            assert(frames_work(l, tv, frames_view(self.frames@)) == frames_work(
                l,
                tv,
                frames_view(self.frames@),
            ));
        }
    }

    /// What the walk has collected, in order.
    pub fn into_found(self) -> (r: Vec<RepoFileRef>)
        ensures
            r.deep_view() == self.found(),
    {
        self.found
    }
}

/// Once a walk is done, what it has collected is everything: for every
/// listing that answered its requests, the collected files are exactly
/// those of the depth-first walk `visit_dir`.
pub proof fn walk_done_found_all(w: TreeWalk, l: Listing)
    requires
        w.pending() is None,
        w.open_dirs().len() == 0,
    ensures
        w.total(l) == w.found(),
{
    assert(w.total(l) =~= w.found());
}

} // verus!
