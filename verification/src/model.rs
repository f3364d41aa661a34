//! The artifacts that the fetcher writes (`repos.json`, `files/*.json`, the
//! raw bundles) and the parsed form of each tracked file kind. Each type has
//! a deep view made of sequences, maps and options of characters, which the
//! parsers' contracts speak of.
use vstd::prelude::*;
use crate::text::{str_eq, chars_of};

verus! {

// ---------- a string-keyed map ----------

/// The map that an association list denotes; a later pair for the same key
/// overrides an earlier one.
pub open spec fn assoc_map(s: Seq<(String, String)>) -> Map<Seq<char>, Seq<char>>
    decreases s.len(),
{
    if s.len() == 0 {
        Map::empty()
    } else {
        assoc_map(s.drop_last()).insert(s.last().0@, s.last().1@)
    }
}

pub open spec fn keys_distinct(s: Seq<(String, String)>) -> bool {
    forall|i: int, j: int| 0 <= i < j < s.len() ==> s[i].0@ != s[j].0@
}

proof fn lemma_assoc_contains(s: Seq<(String, String)>, k: Seq<char>)
    ensures
        assoc_map(s).contains_key(k) <==> exists|i: int| 0 <= i < s.len() && s[i].0@ == k,
    decreases s.len(),
{
    if s.len() > 0 {
        lemma_assoc_contains(s.drop_last(), k);
        if assoc_map(s).contains_key(k) && s.last().0@ != k {
            let i = choose|i: int| 0 <= i < s.len() - 1 && s.drop_last()[i].0@ == k;
            assert(s[i].0@ == k);
        }
        if exists|i: int| 0 <= i < s.len() && s[i].0@ == k {
            let i = choose|i: int| 0 <= i < s.len() && s[i].0@ == k;
            if i < s.len() - 1 {
                assert(s.drop_last()[i].0@ == k);
            }
        }
    }
}

proof fn lemma_assoc_get(s: Seq<(String, String)>, i: int)
    requires
        keys_distinct(s),
        0 <= i < s.len(),
    ensures
        assoc_map(s).contains_key(s[i].0@),
        assoc_map(s)[s[i].0@] == s[i].1@,
    decreases s.len(),
{
    if i < s.len() - 1 {
        assert(s.drop_last()[i] == s[i]);
        lemma_assoc_get(s.drop_last(), i);
    }
}

proof fn lemma_assoc_update(s: Seq<(String, String)>, i: int, p: (String, String))
    requires
        keys_distinct(s),
        0 <= i < s.len(),
        s[i].0@ == p.0@,
    ensures
        assoc_map(s.update(i, p)) == assoc_map(s).insert(p.0@, p.1@),
    decreases s.len(),
{
    if i == s.len() - 1 {
        assert(s.update(i, p).drop_last() == s.drop_last());
        lemma_assoc_contains(s.drop_last(), p.0@);
        assert(assoc_map(s.update(i, p)) =~= assoc_map(s).insert(p.0@, p.1@));
    } else {
        assert(s.update(i, p).drop_last() == s.drop_last().update(i, p));
        lemma_assoc_update(s.drop_last(), i, p);
        assert(s.last().0@ != p.0@);
        assert(assoc_map(s.update(i, p)) =~= assoc_map(s).insert(p.0@, p.1@));
    }
}

/// The order of `String` keys: lexicographic by character, each character
/// by its code point (the order of their UTF-8 bytes too).
pub open spec fn key_less(a: Seq<char>, b: Seq<char>) -> bool
    decreases a.len(),
{
    if a.len() == 0 {
        b.len() > 0
    } else if b.len() == 0 {
        false
    } else if a[0] != b[0] {
        a[0] < b[0]
    } else {
        key_less(a.drop_first(), b.drop_first())
    }
}

/// The pairs' keys strictly increase.
pub open spec fn keys_sorted(s: Seq<(String, String)>) -> bool {
    forall|i: int, j: int| 0 <= i < j < s.len() ==> key_less(#[trigger] s[i].0@, #[trigger] s[j].0@)
}

proof fn lemma_key_less_irreflexive(a: Seq<char>)
    ensures
        !key_less(a, a),
    decreases a.len(),
{
    if a.len() > 0 {
        lemma_key_less_irreflexive(a.drop_first());
    }
}

proof fn lemma_key_less_transitive(a: Seq<char>, b: Seq<char>, c: Seq<char>)
    requires
        key_less(a, b),
        key_less(b, c),
    ensures
        key_less(a, c),
    decreases a.len(),
{
    if a.len() > 0 && b.len() > 0 && c.len() > 0 && a[0] == b[0] && b[0] == c[0] {
        lemma_key_less_transitive(a.drop_first(), b.drop_first(), c.drop_first());
    }
}

proof fn lemma_key_less_total(a: Seq<char>, b: Seq<char>)
    requires
        a != b,
    ensures
        key_less(a, b) || key_less(b, a),
    decreases a.len(),
{
    if a.len() > 0 && b.len() > 0 && a[0] == b[0] {
        if a.drop_first() == b.drop_first() {
            assert(a =~= seq![a[0]] + a.drop_first());
            assert(b =~= seq![b[0]] + b.drop_first());
        }
        lemma_key_less_total(a.drop_first(), b.drop_first());
    } else if a.len() == 0 && b.len() == 0 {
        assert(a =~= b);
    }
}

proof fn lemma_sorted_distinct(s: Seq<(String, String)>)
    requires
        keys_sorted(s),
    ensures
        keys_distinct(s),
{
    assert forall|i: int, j: int| 0 <= i < j < s.len() implies s[i].0@ != s[j].0@ by {
        if s[i].0@ == s[j].0@ {
            lemma_key_less_irreflexive(s[i].0@);
        }
    }
}

/// Placing a pair whose key is new anywhere among the pairs adds its key to
/// the map.
proof fn lemma_assoc_insert(s: Seq<(String, String)>, i: int, p: (String, String))
    requires
        0 <= i <= s.len(),
        forall|j: int| 0 <= j < s.len() ==> s[j].0@ != p.0@,
    ensures
        assoc_map(s.insert(i, p)) == assoc_map(s).insert(p.0@, p.1@),
    decreases s.len(),
{
    if i == s.len() {
        assert(s.insert(i, p).drop_last() =~= s);
    } else {
        assert(s.insert(i, p).drop_last() =~= s.drop_last().insert(i, p));
        assert(s.insert(i, p).last() == s.last());
        lemma_assoc_insert(s.drop_last(), i, p);
        assert(assoc_map(s.insert(i, p)) =~= assoc_map(s).insert(p.0@, p.1@));
    }
}

/// Whether `a` comes before `b` as `String` keys: lexicographically, by
/// code point.
fn key_before(a: &str, b: &str) -> (r: bool)
    ensures
        r == key_less(a@, b@),
{
    let x = chars_of(a);
    let y = chars_of(b);
    let mut i: usize = 0;
    assert(x@.skip(0) =~= x@);
    assert(y@.skip(0) =~= y@);
    while i < x.len() && i < y.len()
        invariant
            i <= x@.len(),
            i <= y@.len(),
            key_less(x@, y@) == key_less(x@.skip(i as int), y@.skip(i as int)),
            x@ == a@,
            y@ == b@,
        decreases x@.len() - i,
    {
        let ghost xs = x@.skip(i as int);
        let ghost ys = y@.skip(i as int);
        assert(xs[0] == x@[i as int]);
        assert(ys[0] == y@[i as int]);
        if x[i] != y[i] {
            return x[i] < y[i];
        }
        assert(xs.drop_first() =~= x@.skip(i + 1));
        assert(ys.drop_first() =~= y@.skip(i + 1));
        i += 1;
    }
    assert(x@.skip(i as int).len() == x@.len() - i);
    assert(y@.skip(i as int).len() == y@.len() - i);
    i == x.len() && i < y.len()
}

/// A map from strings to strings, keeping its pairs in the order of their
/// keys (`key_less`).
#[derive(Debug)]
pub struct StrMap {
    entries: Vec<(String, String)>,
}

impl View for StrMap {
    type V = Map<Seq<char>, Seq<char>>;

    closed spec fn view(&self) -> Map<Seq<char>, Seq<char>> {
        assoc_map(self.entries@)
    }
}

impl Clone for StrMap {
    fn clone(&self) -> (r: Self)
        ensures
            r@ == self@,
    {
        proof {
            use_type_invariant(self);
        }
        let mut es: Vec<(String, String)> = Vec::new();
        let mut i: usize = 0;
        while i < self.entries.len()
            invariant
                i <= self.entries@.len(),
                es@ == self.entries@.take(i as int),
            decreases self.entries@.len() - i,
        {
            let p = &self.entries[i];
            es.push((p.0.clone(), p.1.clone()));
            assert(es@ =~= self.entries@.take(i + 1));
            i += 1;
        }
        assert(self.entries@.take(i as int) == self.entries@);
        StrMap { entries: es }
    }
}

impl DeepView for StrMap {
    type V = Map<Seq<char>, Seq<char>>;

    open spec fn deep_view(&self) -> Map<Seq<char>, Seq<char>> {
        self@
    }
}

impl StrMap {
    #[verifier::type_invariant]
    closed spec fn wf(&self) -> bool {
        keys_sorted(self.entries@)
    }

    /// The pairs, each key once, in key order.
    pub closed spec fn pairs(&self) -> Seq<(String, String)> {
        self.entries@
    }

    pub fn new() -> (r: Self)
        ensures
            r@ == Map::<Seq<char>, Seq<char>>::empty(),
            r.pairs().len() == 0,
    {
        StrMap { entries: Vec::new() }
    }

    fn find(&self, k: &str) -> (r: Option<usize>)
        ensures
            r matches Some(i) ==> i < self.entries@.len() && self.entries@[i as int].0@ == k@,
            r is None ==> forall|i: int|
                0 <= i < self.entries@.len() ==> self.entries@[i].0@ != k@,
    {
        let mut i: usize = 0;
        while i < self.entries.len()
            invariant
                i <= self.entries@.len(),
                forall|j: int| 0 <= j < i ==> self.entries@[j].0@ != k@,
            decreases self.entries@.len() - i,
        {
            if str_eq(self.entries[i].0.as_str(), k) {
                return Some(i);
            }
            i += 1;
        }
        None
    }

    /// The place of `k` among the pairs: the first pair whose key does not
    /// come before `k`.
    fn place(&self, k: &str) -> (r: usize)
        requires
            keys_sorted(self.entries@),
        ensures
            r <= self.entries@.len(),
            forall|j: int| 0 <= j < r ==> key_less(#[trigger] self.entries@[j].0@, k@),
            forall|j: int| r <= j < self.entries@.len() ==> !key_less(#[trigger] self.entries@[j].0@, k@),
    {
        let mut i: usize = 0;
        while i < self.entries.len()
            invariant
                i <= self.entries@.len(),
                keys_sorted(self.entries@),
                forall|j: int| 0 <= j < i ==> key_less(#[trigger] self.entries@[j].0@, k@),
            decreases self.entries@.len() - i,
        {
            if !key_before(self.entries[i].0.as_str(), k) {
                assert forall|j: int| i <= j < self.entries@.len() implies !key_less(
                    #[trigger] self.entries@[j].0@,
                    k@,
                ) by {
                    if j > i && key_less(self.entries@[j].0@, k@) {
                        lemma_key_less_transitive(self.entries@[i as int].0@, self.entries@[j].0@, k@);
                    }
                }
                return i;
            }
            i += 1;
        }
        i
    }

    /// Sets `k` to `v`, replacing an earlier value of `k`; the pairs stay in
    /// key order.
    pub fn insert(&mut self, k: String, v: String)
        ensures
            final(self)@ == old(self)@.insert(k@, v@),
    {
        proof {
            use_type_invariant(&*self);
        }
        let i = self.place(k.as_str());
        let mut es: Vec<(String, String)> = Vec::new();
        std::mem::swap(&mut es, &mut self.entries);
        let ghost old_entries = es@;
        proof {
            lemma_sorted_distinct(old_entries);
        }
        if i < es.len() && str_eq(es[i].0.as_str(), k.as_str()) {
            proof {
                lemma_assoc_update(es@, i as int, (k, v));
            }
            es.set(i, (k, v));
            assert(keys_sorted(es@)) by {
                assert forall|a: int, b: int| 0 <= a < b < es@.len() implies key_less(
                    #[trigger] es@[a].0@,
                    #[trigger] es@[b].0@,
                ) by {
                    assert(old_entries[a].0@ == es@[a].0@);
                    assert(old_entries[b].0@ == es@[b].0@);
                }
            }
        } else {
            assert forall|j: int| 0 <= j < old_entries.len() implies old_entries[j].0@ != k@ by {
                if old_entries[j].0@ == k@ {
                    lemma_key_less_irreflexive(k@);
                    if j > i {
                        lemma_key_less_total(old_entries[i as int].0@, k@);
                        assert(key_less(old_entries[i as int].0@, old_entries[j].0@));
                    }
                }
            }
            proof {
                lemma_assoc_insert(old_entries, i as int, (k, v));
            }
            if i < es.len() {
                proof {
                    lemma_key_less_total(old_entries[i as int].0@, k@);
                }
            }
            es.insert(i, (k, v));
            assert(keys_sorted(es@)) by {
                assert forall|a: int, b: int| 0 <= a < b < es@.len() implies key_less(
                    #[trigger] es@[a].0@,
                    #[trigger] es@[b].0@,
                ) by {
                    if b == i {
                        assert(es@[a] == old_entries[a]);
                    } else if a == i {
                        assert(es@[b] == old_entries[b - 1]);
                        if b - 1 > i {
                            lemma_key_less_transitive(k@, old_entries[i as int].0@, old_entries[b - 1].0@);
                        }
                    } else if b < i {
                        assert(es@[a] == old_entries[a]);
                        assert(es@[b] == old_entries[b]);
                    } else if a < i {
                        assert(es@[a] == old_entries[a]);
                        assert(es@[b] == old_entries[b - 1]);
                    } else {
                        assert(es@[a] == old_entries[a - 1]);
                        assert(es@[b] == old_entries[b - 1]);
                    }
                }
            }
        }
        self.entries = es;
    }

    /// The value of `k`, if it has one.
    pub fn get(&self, k: &str) -> (r: Option<&String>)
        ensures
            match r {
                Some(v) => self@.contains_key(k@) && self@[k@] == v@,
                None => !self@.contains_key(k@),
            },
    {
        proof {
            use_type_invariant(self);
            lemma_sorted_distinct(self.entries@);
            lemma_assoc_contains(self.entries@, k@);
        }
        match self.find(k) {
            Some(i) => {
                proof {
                    lemma_assoc_get(self.entries@, i as int);
                }
                Some(&self.entries[i].1)
            },
            None => None,
        }
    }

    pub fn contains_key(&self, k: &str) -> (r: bool)
        ensures
            r == self@.contains_key(k@),
    {
        self.get(k).is_some()
    }

    pub fn len(&self) -> (r: usize)
        ensures
            r == self@.len(),
    {
        proof {
            use_type_invariant(self);
            lemma_sorted_distinct(self.entries@);
            self.lemma_len(self.entries@);
        }
        self.entries.len()
    }

    proof fn lemma_len(&self, s: Seq<(String, String)>)
        requires
            keys_distinct(s),
        ensures
            assoc_map(s).dom().finite(),
            assoc_map(s).len() == s.len(),
        decreases s.len(),
    {
        if s.len() > 0 {
            self.lemma_len(s.drop_last());
            lemma_assoc_contains(s.drop_last(), s.last().0@);
            assert(!assoc_map(s.drop_last()).contains_key(s.last().0@)) by {
                if assoc_map(s.drop_last()).contains_key(s.last().0@) {
                    let i = choose|i: int|
                        0 <= i < s.drop_last().len() && s.drop_last()[i].0@ == s.last().0@;
                    assert(s[i].0@ == s[s.len() - 1].0@);
                }
            }
        }
    }

    pub fn is_empty(&self) -> (r: bool)
        ensures
            r == (self@.len() == 0),
    {
        self.len() == 0
    }

    /// The pairs, each key once, in key order.
    pub fn entries(&self) -> (r: &Vec<(String, String)>)
        ensures
            r@ == self.pairs(),
            keys_sorted(r@),
            keys_distinct(r@),
            self@ == assoc_map(r@),
    {
        proof {
            use_type_invariant(self);
            lemma_sorted_distinct(self.entries@);
        }
        &self.entries
    }
}


/// What a read gives back of a write: after `insert(k, v)`, `get(k)` gives
/// `v`, and every other key keeps its value.
pub proof fn get_after_insert(m: Map<Seq<char>, Seq<char>>, k: Seq<char>, v: Seq<char>, other: Seq<char>)
    ensures
        m.insert(k, v).contains_key(k),
        m.insert(k, v)[k] == v,
        other != k ==> (m.insert(k, v).contains_key(other) == m.contains_key(other)),
        other != k && m.contains_key(other) ==> m.insert(k, v)[other] == m[other],
{
}

// ---------- repository and tracked files ----------

/// The kinds of file that the fetcher tracks.
#[derive(Debug, Clone, Copy, PartialEq, Eq, Structural)]
pub enum FileKind {
    PackageJson,
    PomXml,
    GitlabCi,
    Dockerfile,
}

/// A tracked file found in a repository tree.
#[derive(Debug, Clone)]
pub struct RepoFileRef {
    pub kind: FileKind,
    pub path: String,
}

impl DeepView for RepoFileRef {
    type V = (FileKind, Seq<char>);

    open spec fn deep_view(&self) -> (FileKind, Seq<char>) {
        (self.kind, self.path@)
    }
}

/// One repository of `repos.json`.
#[derive(Debug, Clone)]
pub struct Repository {
    pub id: u64,
    pub path: String,
    pub name: String,
    pub url: String,
    pub fetched_at: String,
    pub files: Vec<RepoFileRef>,
}

/// One file of `files/<repo_id>/<path>.json`: the raw text and what was
/// parsed out of it.
#[derive(Debug, Clone)]
pub struct TrackedFile {
    pub repo_id: u64,
    pub path: String,
    pub kind: FileKind,
    pub blob_sha: String,
    pub size: u64,
    pub raw: String,
    pub parsed: ParsedFile,
}

/// One element of a raw bundle (`ci-raws.json`, `pkg-raws.json`,
/// `pom-raws.json`, `docker-raws.json`).
#[derive(Debug, Clone)]
pub struct CiRawEntry {
    pub repo_id: u64,
    pub path: String,
    pub raw: String,
}

/// What was parsed out of a tracked file; its variant follows the file's
/// kind.
#[derive(Debug, Clone)]
pub enum ParsedFile {
    PackageJson(ParsedPackageJson),
    PomXml(ParsedPomXml),
    GitlabCi(ParsedGitlabCi),
    Unstructured(ParsedUnstructured),
}

/// The parsed form of a file that is kept raw only (`Dockerfile`).
#[derive(Debug, Clone)]
pub struct ParsedUnstructured {}

/// The kind of file whose parsed form `p` is.
pub open spec fn parsed_kind(p: ParsedFile) -> FileKind {
    match p {
        ParsedFile::PackageJson(_) => FileKind::PackageJson,
        ParsedFile::PomXml(_) => FileKind::PomXml,
        ParsedFile::GitlabCi(_) => FileKind::GitlabCi,
        ParsedFile::Unstructured(_) => FileKind::Dockerfile,
    }
}

pub enum ParsedFileV {
    PackageJson(PackageJsonV),
    PomXml(PomXmlV),
    GitlabCi(GitlabCiV),
    Unstructured,
}

impl DeepView for ParsedFile {
    type V = ParsedFileV;

    open spec fn deep_view(&self) -> ParsedFileV {
        match self {
            ParsedFile::PackageJson(p) => ParsedFileV::PackageJson(p.deep_view()),
            ParsedFile::PomXml(p) => ParsedFileV::PomXml(p.deep_view()),
            ParsedFile::GitlabCi(p) => ParsedFileV::GitlabCi(p.deep_view()),
            ParsedFile::Unstructured(_) => ParsedFileV::Unstructured,
        }
    }
}

impl ParsedFile {
    /// The parsed form with nothing in it, for a file of `kind` that could
    /// not be parsed.
    pub fn empty(kind: FileKind) -> (r: Self)
        ensures
            parsed_kind(r) == kind,
            r.deep_view() == empty_parsed(kind),
    {
        match kind {
            FileKind::PackageJson => ParsedFile::PackageJson(ParsedPackageJson::default()),
            FileKind::PomXml => ParsedFile::PomXml(ParsedPomXml::default()),
            FileKind::GitlabCi => ParsedFile::GitlabCi(ParsedGitlabCi::default()),
            FileKind::Dockerfile => ParsedFile::Unstructured(ParsedUnstructured {}),
        }
    }
}

/// The empty parsed form of each kind.
pub open spec fn empty_parsed(kind: FileKind) -> ParsedFileV {
    match kind {
        FileKind::PackageJson => ParsedFileV::PackageJson(empty_package_json()),
        FileKind::PomXml => ParsedFileV::PomXml(empty_pom_xml()),
        FileKind::GitlabCi => ParsedFileV::GitlabCi(empty_gitlab_ci()),
        FileKind::Dockerfile => ParsedFileV::Unstructured,
    }
}

// ---------- parsed: package.json ----------

/// What is kept of a `package.json`.
#[derive(Debug, Clone)]
pub struct ParsedPackageJson {
    pub name: Option<String>,
    pub version: Option<String>,
    pub dependencies: StrMap,
    pub dev_dependencies: StrMap,
    pub peer_dependencies: StrMap,
    pub scripts: StrMap,
    pub engines: StrMap,
}

pub struct PackageJsonV {
    pub name: Option<Seq<char>>,
    pub version: Option<Seq<char>>,
    pub dependencies: Map<Seq<char>, Seq<char>>,
    pub dev_dependencies: Map<Seq<char>, Seq<char>>,
    pub peer_dependencies: Map<Seq<char>, Seq<char>>,
    pub scripts: Map<Seq<char>, Seq<char>>,
    pub engines: Map<Seq<char>, Seq<char>>,
}

impl DeepView for ParsedPackageJson {
    type V = PackageJsonV;

    open spec fn deep_view(&self) -> PackageJsonV {
        PackageJsonV {
            name: self.name.deep_view(),
            version: self.version.deep_view(),
            dependencies: self.dependencies@,
            dev_dependencies: self.dev_dependencies@,
            peer_dependencies: self.peer_dependencies@,
            scripts: self.scripts@,
            engines: self.engines@,
        }
    }
}

pub open spec fn empty_package_json() -> PackageJsonV {
    PackageJsonV {
        name: None,
        version: None,
        dependencies: Map::empty(),
        dev_dependencies: Map::empty(),
        peer_dependencies: Map::empty(),
        scripts: Map::empty(),
        engines: Map::empty(),
    }
}

impl Default for ParsedPackageJson {
    fn default() -> (r: Self)
        ensures
            r.deep_view() == empty_package_json(),
    {
        ParsedPackageJson {
            name: None,
            version: None,
            dependencies: StrMap::new(),
            dev_dependencies: StrMap::new(),
            peer_dependencies: StrMap::new(),
            scripts: StrMap::new(),
            engines: StrMap::new(),
        }
    }
}

// ---------- parsed: pom.xml ----------

/// What is kept of a `pom.xml`.
#[derive(Debug, Clone)]
pub struct ParsedPomXml {
    pub group_id: Option<String>,
    pub artifact_id: Option<String>,
    pub version: Option<String>,
    pub parent: Option<PomCoordinate>,
    pub properties: StrMap,
    pub dependencies: Vec<PomDependency>,
    pub plugins: Vec<PomPlugin>,
}

/// `project.parent` of a `pom.xml`.
#[derive(Debug, Clone, PartialEq, Eq)]
pub struct PomCoordinate {
    pub group_id: String,
    pub artifact_id: String,
    pub version: String,
}

/// One `project.dependencies.dependency` of a `pom.xml`.
#[derive(Debug, Clone, PartialEq, Eq)]
pub struct PomDependency {
    pub group_id: String,
    pub artifact_id: String,
    pub version: Option<String>,
    pub scope: Option<String>,
}

/// One `project.build.plugins.plugin` of a `pom.xml`.
#[derive(Debug, Clone, PartialEq, Eq)]
pub struct PomPlugin {
    pub group_id: String,
    pub artifact_id: String,
    pub version: Option<String>,
}

pub struct CoordinateV {
    pub group_id: Seq<char>,
    pub artifact_id: Seq<char>,
    pub version: Seq<char>,
}

pub struct DependencyV {
    pub group_id: Seq<char>,
    pub artifact_id: Seq<char>,
    pub version: Option<Seq<char>>,
    pub scope: Option<Seq<char>>,
}

pub struct PluginV {
    pub group_id: Seq<char>,
    pub artifact_id: Seq<char>,
    pub version: Option<Seq<char>>,
}

pub struct PomXmlV {
    pub group_id: Option<Seq<char>>,
    pub artifact_id: Option<Seq<char>>,
    pub version: Option<Seq<char>>,
    pub parent: Option<CoordinateV>,
    pub properties: Map<Seq<char>, Seq<char>>,
    pub dependencies: Seq<DependencyV>,
    pub plugins: Seq<PluginV>,
}

impl DeepView for PomCoordinate {
    type V = CoordinateV;

    open spec fn deep_view(&self) -> CoordinateV {
        CoordinateV {
            group_id: self.group_id@,
            artifact_id: self.artifact_id@,
            version: self.version@,
        }
    }
}

impl DeepView for PomDependency {
    type V = DependencyV;

    open spec fn deep_view(&self) -> DependencyV {
        DependencyV {
            group_id: self.group_id@,
            artifact_id: self.artifact_id@,
            version: self.version.deep_view(),
            scope: self.scope.deep_view(),
        }
    }
}

impl DeepView for PomPlugin {
    type V = PluginV;

    open spec fn deep_view(&self) -> PluginV {
        PluginV {
            group_id: self.group_id@,
            artifact_id: self.artifact_id@,
            version: self.version.deep_view(),
        }
    }
}

impl DeepView for ParsedPomXml {
    type V = PomXmlV;

    open spec fn deep_view(&self) -> PomXmlV {
        PomXmlV {
            group_id: self.group_id.deep_view(),
            artifact_id: self.artifact_id.deep_view(),
            version: self.version.deep_view(),
            parent: self.parent.deep_view(),
            properties: self.properties@,
            dependencies: self.dependencies.deep_view(),
            plugins: self.plugins.deep_view(),
        }
    }
}

pub open spec fn empty_pom_xml() -> PomXmlV {
    PomXmlV {
        group_id: None,
        artifact_id: None,
        version: None,
        parent: None,
        properties: Map::empty(),
        dependencies: Seq::empty(),
        plugins: Seq::empty(),
    }
}

impl Default for ParsedPomXml {
    fn default() -> (r: Self)
        ensures
            r.deep_view() == empty_pom_xml(),
    {
        let r = ParsedPomXml {
            group_id: None,
            artifact_id: None,
            version: None,
            parent: None,
            properties: StrMap::new(),
            dependencies: Vec::new(),
            plugins: Vec::new(),
        };
        assert(r.dependencies.deep_view() =~= Seq::<DependencyV>::empty());
        assert(r.plugins.deep_view() =~= Seq::<PluginV>::empty());
        r
    }
}

// ---------- parsed: .gitlab-ci.yml ----------

/// What is kept of a `.gitlab-ci.yml`.
#[derive(Debug, Clone)]
pub struct ParsedGitlabCi {
    pub stages: Vec<String>,
    pub default: Option<CiDefault>,
    pub variables: StrMap,
    pub includes: Vec<CiInclude>,
    pub jobs: Vec<CiJob>,
    pub images: Vec<String>,
}

/// The `default:` section of a `.gitlab-ci.yml`.
#[derive(Debug, Clone, PartialEq, Eq)]
pub struct CiDefault {
    pub image: Option<String>,
    pub tags: Vec<String>,
}

/// One entry of `include:`, flattened; nothing is resolved.
#[derive(Debug, Clone, PartialEq, Eq)]
pub enum CiInclude {
    Local { file: String },
    Project { project: String, ref_: Option<String>, files: Vec<String> },
    Remote { url: String },
    Template { name: String },
    Component { component: String },
}

/// One job: a top-level mapping whose key is not a reserved word.
#[derive(Debug, Clone, PartialEq, Eq)]
pub struct CiJob {
    pub name: String,
    pub stage: Option<String>,
    pub image: Option<String>,
    pub tags: Vec<String>,
    pub extends: Vec<String>,
    pub needs: Vec<String>,
    pub script: Vec<String>,
}

pub struct DefaultV {
    pub image: Option<Seq<char>>,
    pub tags: Seq<Seq<char>>,
}

pub enum IncludeV {
    Local { file: Seq<char> },
    Project { project: Seq<char>, ref_: Option<Seq<char>>, files: Seq<Seq<char>> },
    Remote { url: Seq<char> },
    Template { name: Seq<char> },
    Component { component: Seq<char> },
}

pub struct JobV {
    pub name: Seq<char>,
    pub stage: Option<Seq<char>>,
    pub image: Option<Seq<char>>,
    pub tags: Seq<Seq<char>>,
    pub extends: Seq<Seq<char>>,
    pub needs: Seq<Seq<char>>,
    pub script: Seq<Seq<char>>,
}

pub struct GitlabCiV {
    pub stages: Seq<Seq<char>>,
    pub default: Option<DefaultV>,
    pub variables: Map<Seq<char>, Seq<char>>,
    pub includes: Seq<IncludeV>,
    pub jobs: Seq<JobV>,
    pub images: Seq<Seq<char>>,
}

impl DeepView for CiDefault {
    type V = DefaultV;

    open spec fn deep_view(&self) -> DefaultV {
        DefaultV { image: self.image.deep_view(), tags: self.tags.deep_view() }
    }
}

impl DeepView for CiInclude {
    type V = IncludeV;

    open spec fn deep_view(&self) -> IncludeV {
        match self {
            CiInclude::Local { file } => IncludeV::Local { file: file@ },
            CiInclude::Project { project, ref_, files } => IncludeV::Project {
                project: project@,
                ref_: ref_.deep_view(),
                files: files.deep_view(),
            },
            CiInclude::Remote { url } => IncludeV::Remote { url: url@ },
            CiInclude::Template { name } => IncludeV::Template { name: name@ },
            CiInclude::Component { component } => IncludeV::Component { component: component@ },
        }
    }
}

impl DeepView for CiJob {
    type V = JobV;

    open spec fn deep_view(&self) -> JobV {
        JobV {
            name: self.name@,
            stage: self.stage.deep_view(),
            image: self.image.deep_view(),
            tags: self.tags.deep_view(),
            extends: self.extends.deep_view(),
            needs: self.needs.deep_view(),
            script: self.script.deep_view(),
        }
    }
}

impl DeepView for ParsedGitlabCi {
    type V = GitlabCiV;

    open spec fn deep_view(&self) -> GitlabCiV {
        GitlabCiV {
            stages: self.stages.deep_view(),
            default: self.default.deep_view(),
            variables: self.variables@,
            includes: self.includes.deep_view(),
            jobs: self.jobs.deep_view(),
            images: self.images.deep_view(),
        }
    }
}

pub open spec fn empty_gitlab_ci() -> GitlabCiV {
    GitlabCiV {
        stages: Seq::empty(),
        default: None,
        variables: Map::empty(),
        includes: Seq::empty(),
        jobs: Seq::empty(),
        images: Seq::empty(),
    }
}

impl Default for ParsedGitlabCi {
    fn default() -> (r: Self)
        ensures
            r.deep_view() == empty_gitlab_ci(),
    {
        let r = ParsedGitlabCi {
            stages: Vec::new(),
            default: None,
            variables: StrMap::new(),
            includes: Vec::new(),
            jobs: Vec::new(),
            images: Vec::new(),
        };
        assert(r.stages.deep_view() =~= Seq::<Seq<char>>::empty());
        assert(r.includes.deep_view() =~= Seq::<IncludeV>::empty());
        assert(r.jobs.deep_view() =~= Seq::<JobV>::empty());
        assert(r.images.deep_view() =~= Seq::<Seq<char>>::empty());
        r
    }
}

} // verus!
