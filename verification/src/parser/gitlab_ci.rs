//! `.gitlab-ci.yml`: stages, `default`, variables, includes, jobs and the
//! images they use, read from the YAML document. Values vary in shape, so
//! each field accepts the forms GitLab allows and drops the rest.
use vstd::prelude::*;
use crate::model::{
    CiDefault, CiInclude, CiJob, ParsedGitlabCi, DefaultV, IncludeV, JobV, GitlabCiV, StrMap,
    empty_gitlab_ci,
};
use crate::text::{str_eq, push_dv, contains_str};
use crate::yaml::{
    Yaml, yaml_str, lookup, opt_str_view, as_str_of, lookup_in, load_yaml,
    yaml_document,
};

verus! {

/// The string items of a sequence (each under any tags); other items are
/// dropped.
pub open spec fn str_items(xs: Seq<Yaml>) -> Seq<Seq<char>>
    decreases xs.len(),
{
    if xs.len() == 0 {
        Seq::empty()
    } else {
        match yaml_str(xs[0]) {
            Some(s) => seq![s] + str_items(xs.drop_first()),
            None => str_items(xs.drop_first()),
        }
    }
}

/// A string, or a sequence of strings; anything else gives nothing.
pub open spec fn string_list(v: Yaml) -> Seq<Seq<char>> {
    match v {
        Yaml::Str(s) => seq![s@],
        Yaml::Sequence(xs) => str_items(xs@),
        _ => Seq::empty(),
    }
}

/// The string under the key, if the key is there and holds a string.
pub open spec fn str_at(m: Seq<(Yaml, Yaml)>, key: Seq<char>) -> Option<Seq<char>> {
    match lookup(m, key) {
        Some(x) => yaml_str(x),
        None => None,
    }
}

/// The list under the key, or nothing when the key is absent.
pub open spec fn list_at(m: Seq<(Yaml, Yaml)>, key: Seq<char>) -> Seq<Seq<char>> {
    match lookup(m, key) {
        Some(x) => string_list(x),
        None => Seq::empty(),
    }
}

/// A variable's value as plain text: a string, a boolean, a number, or the
/// `value` string of the expanded `{value: ..., description: ...}` form.
pub open spec fn simple_string(v: Yaml) -> Option<Seq<char>> {
    match v {
        Yaml::Str(s) => Some(s@),
        Yaml::Bool(b) => Some(if b { "true"@ } else { "false"@ }),
        Yaml::Number(n) => Some(n@),
        Yaml::Mapping(m) => str_at(m@, "value"@),
        _ => None,
    }
}

/// The variables of a mapping's entries, in order; a later key overrides an
/// earlier one.
pub open spec fn var_entries(m: Seq<(Yaml, Yaml)>) -> Map<Seq<char>, Seq<char>>
    decreases m.len(),
{
    if m.len() == 0 {
        Map::empty()
    } else {
        let acc = var_entries(m.drop_last());
        match (yaml_str(m.last().0), simple_string(m.last().1)) {
            (Some(k), Some(v)) => acc.insert(k, v),
            _ => acc,
        }
    }
}

pub open spec fn vars_of(v: Yaml) -> Map<Seq<char>, Seq<char>> {
    match v {
        Yaml::Mapping(m) => var_entries(m@),
        _ => Map::empty(),
    }
}

/// An image: a string, or the `name` of the `{name: ..., entrypoint: ...}`
/// form.
pub open spec fn image_of(v: Yaml) -> Option<Seq<char>> {
    match v {
        Yaml::Str(s) => Some(s@),
        Yaml::Mapping(m) => str_at(m@, "name"@),
        _ => None,
    }
}

pub open spec fn image_at(m: Seq<(Yaml, Yaml)>) -> Option<Seq<char>> {
    match lookup(m, "image"@) {
        Some(x) => image_of(x),
        None => None,
    }
}

/// The `default:` section, if it is a mapping.
pub open spec fn default_of(v: Yaml) -> Option<DefaultV> {
    match v {
        Yaml::Mapping(m) => Some(DefaultV { image: image_at(m@), tags: list_at(m@, "tags"@) }),
        _ => None,
    }
}

/// One `include:` item: a string is a local file; a mapping is told apart
/// by its first present key among `local`, `remote`, `template`,
/// `component`, `project`.
pub open spec fn include_of(v: Yaml) -> Option<IncludeV> {
    match v {
        Yaml::Str(s) => Some(IncludeV::Local { file: s@ }),
        Yaml::Mapping(m) => {
            let m = m@;
            if let Some(s) = str_at(m, "local"@) {
                Some(IncludeV::Local { file: s })
            } else if let Some(s) = str_at(m, "remote"@) {
                Some(IncludeV::Remote { url: s })
            } else if let Some(s) = str_at(m, "template"@) {
                Some(IncludeV::Template { name: s })
            } else if let Some(s) = str_at(m, "component"@) {
                Some(IncludeV::Component { component: s })
            } else if let Some(s) = str_at(m, "project"@) {
                let files = match lookup(m, "file"@) {
                    Some(f) => string_list(f),
                    None => list_at(m, "files"@),
                };
                Some(IncludeV::Project { project: s, ref_: str_at(m, "ref"@), files })
            } else {
                None
            }
        },
        _ => None,
    }
}

pub open spec fn include_items(xs: Seq<Yaml>) -> Seq<IncludeV>
    decreases xs.len(),
{
    if xs.len() == 0 {
        Seq::empty()
    } else {
        match include_of(xs[0]) {
            Some(i) => seq![i] + include_items(xs.drop_first()),
            None => include_items(xs.drop_first()),
        }
    }
}

/// `include:`: a single string, a list, or a single mapping.
pub open spec fn includes_of(v: Yaml) -> Seq<IncludeV> {
    match v {
        Yaml::Str(s) => seq![IncludeV::Local { file: s@ }],
        Yaml::Sequence(xs) => include_items(xs@),
        Yaml::Mapping(_) => match include_of(v) {
            Some(i) => seq![i],
            None => Seq::empty(),
        },
        _ => Seq::empty(),
    }
}

/// One `needs:` item: a job name, or the `job` of `{job: ..., ...}`.
pub open spec fn need_of(v: Yaml) -> Option<Seq<char>> {
    match v {
        Yaml::Str(s) => Some(s@),
        Yaml::Mapping(m) => str_at(m@, "job"@),
        _ => None,
    }
}

pub open spec fn need_items(xs: Seq<Yaml>) -> Seq<Seq<char>>
    decreases xs.len(),
{
    if xs.len() == 0 {
        Seq::empty()
    } else {
        match need_of(xs[0]) {
            Some(s) => seq![s] + need_items(xs.drop_first()),
            None => need_items(xs.drop_first()),
        }
    }
}

pub open spec fn needs_of(v: Yaml) -> Seq<Seq<char>> {
    match v {
        Yaml::Sequence(xs) => need_items(xs@),
        _ => Seq::empty(),
    }
}

/// `script:`: strings, in document order, from a string or from sequences
/// nested to any depth.
pub open spec fn flatten(v: Yaml) -> Seq<Seq<char>>
    decreases v,
{
    match v {
        Yaml::Str(s) => seq![s@],
        Yaml::Sequence(xs) => flatten_items(xs@),
        _ => Seq::empty(),
    }
}

pub open spec fn flatten_items(xs: Seq<Yaml>) -> Seq<Seq<char>>
    decreases xs,
{
    if xs.len() == 0 {
        Seq::empty()
    } else {
        flatten(xs[0]) + flatten_items(xs.subrange(1, xs.len() as int))
    }
}

pub open spec fn job_of(name: Seq<char>, v: Yaml) -> Option<JobV> {
    match v {
        Yaml::Mapping(m) => {
            let m = m@;
            Some(
                JobV {
                    name,
                    stage: str_at(m, "stage"@),
                    image: image_at(m),
                    tags: list_at(m, "tags"@),
                    extends: list_at(m, "extends"@),
                    needs: match lookup(m, "needs"@) {
                        Some(x) => needs_of(x),
                        None => Seq::empty(),
                    },
                    script: match lookup(m, "script"@) {
                        Some(x) => flatten(x),
                        None => Seq::empty(),
                    },
                },
            )
        },
        _ => None,
    }
}

/// Top-level keys that GitLab CI gives a meaning of its own; they name no
/// job.
pub open spec fn is_reserved(name: Seq<char>) -> bool {
    ||| name == "default"@
    ||| name == "include"@
    ||| name == "stages"@
    ||| name == "variables"@
    ||| name == "workflow"@
    ||| name == "image"@
    ||| name == "services"@
    ||| name == "cache"@
    ||| name == "before_script"@
    ||| name == "after_script"@
    ||| name == "pages"@
    ||| name == "spec"@
}

/// The jobs: each top-level entry whose key is a string that is not
/// reserved and whose value is a mapping, in document order.
pub open spec fn jobs_from(m: Seq<(Yaml, Yaml)>) -> Seq<JobV>
    decreases m.len(),
{
    if m.len() == 0 {
        Seq::empty()
    } else {
        let rest = jobs_from(m.drop_first());
        match yaml_str(m[0].0) {
            Some(name) => if is_reserved(name) {
                rest
            } else {
                match job_of(name, m[0].1) {
                    Some(j) => seq![j] + rest,
                    None => rest,
                }
            },
            None => rest,
        }
    }
}

/// The images that jobs name, in job order.
pub open spec fn job_images(jobs: Seq<JobV>) -> Seq<Seq<char>>
    decreases jobs.len(),
{
    if jobs.len() == 0 {
        Seq::empty()
    } else {
        match jobs[0].image {
            Some(i) => seq![i] + job_images(jobs.drop_first()),
            None => job_images(jobs.drop_first()),
        }
    }
}

/// `s` with every item after its first occurrence removed.
pub open spec fn dedup(s: Seq<Seq<char>>) -> Seq<Seq<char>>
    decreases s.len(),
{
    if s.len() == 0 {
        Seq::empty()
    } else {
        let d = dedup(s.drop_last());
        if d.contains(s.last()) {
            d
        } else {
            d.push(s.last())
        }
    }
}

/// Every image in use: the default image, then each job's, each once.
pub open spec fn images_of(default: Option<DefaultV>, jobs: Seq<JobV>) -> Seq<Seq<char>> {
    let first = match default {
        Some(d) => match d.image {
            Some(i) => seq![i],
            None => Seq::empty(),
        },
        None => Seq::empty(),
    };
    dedup(first + job_images(jobs))
}

/// What a top-level mapping yields.
pub open spec fn ci_of_mapping(m: Seq<(Yaml, Yaml)>) -> GitlabCiV {
    let default = match lookup(m, "default"@) {
        Some(v) => default_of(v),
        None => None,
    };
    let jobs = jobs_from(m);
    GitlabCiV {
        stages: list_at(m, "stages"@),
        default,
        variables: match lookup(m, "variables"@) {
            Some(v) => vars_of(v),
            None => Map::empty(),
        },
        includes: match lookup(m, "include"@) {
            Some(v) => includes_of(v),
            None => Seq::empty(),
        },
        jobs,
        images: images_of(default, jobs),
    }
}

/// What a document yields: a mapping is read as above, an empty document
/// (null) yields nothing, anything else is refused.
pub open spec fn ci_of_root(root: Yaml) -> Option<GitlabCiV> {
    match root {
        Yaml::Mapping(m) => Some(ci_of_mapping(m@)),
        Yaml::Null => Some(empty_gitlab_ci()),
        _ => None,
    }
}


proof fn lemma_dedup(s: Seq<Seq<char>>)
    ensures
        forall|i: int, j: int|
            0 <= i < j < dedup(s).len() ==> dedup(s)[i] != dedup(s)[j],
        forall|x: Seq<char>| dedup(s).contains(x) <==> s.contains(x),
    decreases s.len(),
{
    if s.len() > 0 {
        let d = dedup(s.drop_last());
        lemma_dedup(s.drop_last());
        assert forall|x: Seq<char>| dedup(s).contains(x) <==> s.contains(x) by {
            assert(s[s.len() - 1] == s.last());
            if x == s.last() {
                if !d.contains(s.last()) {
                    assert(d.push(s.last())[d.len() as int] == x);
                }
            } else {
                if s.contains(x) {
                    let k = choose|k: int| 0 <= k < s.len() && s[k] == x;
                    assert(s.drop_last()[k] == x);
                }
                if s.drop_last().contains(x) {
                    let k = choose|k: int| 0 <= k < s.drop_last().len() && s.drop_last()[k] == x;
                    assert(s[k] == x);
                }
                if !d.contains(s.last()) {
                    if d.push(s.last()).contains(x) {
                        let k = choose|k: int|
                            0 <= k < d.push(s.last()).len() && d.push(s.last())[k] == x;
                        assert(d[k] == x);
                    }
                    if d.contains(x) {
                        let k = choose|k: int| 0 <= k < d.len() && d[k] == x;
                        assert(d.push(s.last())[k] == x);
                    }
                }
            }
        }
        if !d.contains(s.last()) {
            assert forall|i: int, j: int|
                0 <= i < j < dedup(s).len() implies dedup(s)[i] != dedup(s)[j] by {
                if j == d.len() {
                    assert(dedup(s)[i] == d[i]);
                }
            }
        }
    }
}

/// The images of a `.gitlab-ci.yml` are distinct, and they are exactly the
/// default image and the images of the jobs.
pub proof fn images_distinct_and_complete(default: Option<DefaultV>, jobs: Seq<JobV>)
    ensures
        forall|i: int, j: int|
            0 <= i < j < images_of(default, jobs).len() ==> images_of(default, jobs)[i]
                != images_of(default, jobs)[j],
        forall|x: Seq<char>|
            images_of(default, jobs).contains(x) <==> ((default matches Some(d) && d.image == Some(x))
                || job_images(jobs).contains(x)),
{
    let first = match default {
        Some(d) => match d.image {
            Some(i) => seq![i],
            None => Seq::<Seq<char>>::empty(),
        },
        None => Seq::<Seq<char>>::empty(),
    };
    let all = first + job_images(jobs);
    assert(images_of(default, jobs) == dedup(all));
    lemma_dedup(all);
    assert forall|x: Seq<char>|
        images_of(default, jobs).contains(x) <==> ((default matches Some(d) && d.image == Some(x))
            || job_images(jobs).contains(x)) by {
        assert(dedup(all).contains(x) <==> all.contains(x));
        if all.contains(x) {
            let k = choose|k: int| 0 <= k < all.len() && all[k] == x;
            if k >= first.len() {
                assert(job_images(jobs)[k - first.len()] == x);
            }
        }
        if job_images(jobs).contains(x) {
            let k = choose|k: int| 0 <= k < job_images(jobs).len() && job_images(jobs)[k] == x;
            assert(all[k + first.len()] == x);
        }
        if default matches Some(d) && d.image == Some(x) {
            assert(all[0] == x);
        }
    }
}

/// No job bears a reserved name.
pub proof fn jobs_never_reserved(m: Seq<(Yaml, Yaml)>)
    ensures
        forall|i: int| 0 <= i < jobs_from(m).len() ==> !is_reserved(#[trigger] jobs_from(m)[i].name),
    decreases m.len(),
{
    if m.len() > 0 {
        jobs_never_reserved(m.drop_first());
        let rest = jobs_from(m.drop_first());
        if let Some(name) = yaml_str(m[0].0) {
            if !is_reserved(name) {
                if let Some(j) = job_of(name, m[0].1) {
                    assert forall|i: int| 0 <= i < jobs_from(m).len() implies !is_reserved(
                        #[trigger] jobs_from(m)[i].name,
                    ) by {
                        if i > 0 {
                            assert(jobs_from(m)[i] == rest[i - 1]);
                        }
                    }
                }
            }
        }
    }
}

/// No job of a `.gitlab-ci.yml` is named by one of GitLab's reserved
/// top-level keys: `default`, `include`, `stages`, `variables`,
/// `workflow`, `image`, `services`, `cache`, `before_script`,
/// `after_script`, `pages` and `spec` are read as settings (or ignored),
/// never as jobs.
pub proof fn ci_jobs_never_named_by_reserved_keys(root: Yaml)
    ensures
        ci_of_root(root) matches Some(c) ==> forall|i: int|
            0 <= i < c.jobs.len() ==> {
                let n = #[trigger] c.jobs[i].name;
                &&& n != "default"@
                &&& n != "include"@
                &&& n != "stages"@
                &&& n != "variables"@
                &&& n != "workflow"@
                &&& n != "image"@
                &&& n != "services"@
                &&& n != "cache"@
                &&& n != "before_script"@
                &&& n != "after_script"@
                &&& n != "pages"@
                &&& n != "spec"@
            },
{
    if let Yaml::Mapping(m) = root {
        jobs_never_reserved(m@);
    }
}

/// Whether each field of job `j` is read from the key of the same name in
/// the job's mapping `m`: `stage`, `image`, `tags`, `extends`, `needs` and
/// `script`.
pub open spec fn job_reads_its_keys(j: JobV, m: Seq<(Yaml, Yaml)>) -> bool {
    &&& j.stage == str_at(m, "stage"@)
    &&& j.image == match lookup(m, "image"@) {
        Some(x) => image_of(x),
        None => None,
    }
    &&& j.tags == list_at(m, "tags"@)
    &&& j.extends == list_at(m, "extends"@)
    &&& j.needs == match lookup(m, "needs"@) {
        Some(x) => needs_of(x),
        None => Seq::empty(),
    }
    &&& j.script == match lookup(m, "script"@) {
        Some(x) => flatten(x),
        None => Seq::empty(),
    }
}

/// Every job comes from a top-level entry whose key is the job's name and
/// whose value is a mapping, and each of its fields is read from the key of
/// the same name in that mapping.
pub proof fn ci_jobs_come_from_entries(m: Seq<(Yaml, Yaml)>)
    ensures
        forall|i: int|
            0 <= i < jobs_from(m).len() ==> exists|e: int|
                0 <= e < m.len() && yaml_str(m[e].0) == Some((#[trigger] jobs_from(m)[i]).name)
                    && m[e].1 is Mapping && job_reads_its_keys(jobs_from(m)[i], m[e].1->Mapping_0@),
    decreases m.len(),
{
    if m.len() > 0 {
        let u = m.drop_first();
        ci_jobs_come_from_entries(u);
        let rest = jobs_from(u);
        assert forall|i: int| 0 <= i < jobs_from(m).len() implies exists|e: int|
            0 <= e < m.len() && yaml_str(m[e].0) == Some((#[trigger] jobs_from(m)[i]).name)
                && m[e].1 is Mapping && job_reads_its_keys(jobs_from(m)[i], m[e].1->Mapping_0@) by {
            let head = match yaml_str(m[0].0) {
                Some(name) => if is_reserved(name) {
                    None
                } else {
                    job_of(name, m[0].1)
                },
                None => None,
            };
            if head is Some && i == 0 {
                assert(jobs_from(m)[0] == head->Some_0);
                assert(m[0].1 is Mapping);
            } else {
                let k = if head is Some { i - 1 } else { i };
                assert(jobs_from(m)[i] == rest[k]);
                let e = choose|e: int|
                    0 <= e < u.len() && yaml_str(u[e].0) == Some((#[trigger] rest[k]).name)
                        && u[e].1 is Mapping && job_reads_its_keys(rest[k], u[e].1->Mapping_0@);
                assert(m[e + 1] == u[e]);
            }
        }
    }
}

/// The settings of a top-level mapping are read from the keys of the same
/// name: `stages`, `default` (its `image` and `tags`), `variables` and
/// `include`.
pub proof fn ci_settings_follow_keys(m: Seq<(Yaml, Yaml)>)
    ensures
        ci_of_mapping(m).stages == list_at(m, "stages"@),
        ci_of_mapping(m).default == match lookup(m, "default"@) {
            Some(Yaml::Mapping(d)) => Some(
                DefaultV {
                    image: match lookup(d@, "image"@) {
                        Some(x) => image_of(x),
                        None => None,
                    },
                    tags: list_at(d@, "tags"@),
                },
            ),
            _ => None,
        },
        ci_of_mapping(m).variables == match lookup(m, "variables"@) {
            Some(Yaml::Mapping(vs)) => var_entries(vs@),
            _ => Map::empty(),
        },
        ci_of_mapping(m).includes == match lookup(m, "include"@) {
            Some(v) => includes_of(v),
            None => Seq::empty(),
        },
{
}

fn string_items(xs: &Vec<Yaml>) -> (r: Vec<String>)
    ensures
        r.deep_view() == str_items(xs@),
{
    let mut out: Vec<String> = Vec::new();
    let mut i: usize = 0;
    assert(xs@.skip(0) == xs@);
    while i < xs.len()
        invariant
            i <= xs@.len(),
            str_items(xs@) == out.deep_view() + str_items(xs@.skip(i as int)),
        decreases xs@.len() - i,
    {
        assert(xs@.skip(i as int)[0] == xs@[i as int]);
        assert(xs@.skip(i as int).drop_first() == xs@.skip(i + 1));
        let ghost before = out.deep_view();
        match as_str_of(&xs[i]) {
            Some(s) => {
                push_dv(&mut out, s);
                assert(before + str_items(xs@.skip(i as int)) =~= out.deep_view() + str_items(
                    xs@.skip(i + 1),
                ));
            },
            None => {},
        }
        i += 1;
    }
    assert(out.deep_view() + str_items(xs@.skip(i as int)) =~= out.deep_view());
    out
}

fn as_string_list(v: &Yaml) -> (r: Vec<String>)
    ensures
        r.deep_view() == string_list(*v),
{
    match v {
        Yaml::Str(s) => {
            let mut out: Vec<String> = Vec::new();
            push_dv(&mut out, s.clone());
            assert(out.deep_view() =~= seq![s@]);
            out
        },
        Yaml::Sequence(xs) => string_items(xs),
        _ => {
            let out: Vec<String> = Vec::new();
            assert(out.deep_view() =~= Seq::<Seq<char>>::empty());
            out
        },
    }
}

fn str_at_key(m: &Vec<(Yaml, Yaml)>, key: &str) -> (r: Option<String>)
    ensures
        opt_str_view(r) == str_at(m@, key@),
{
    match lookup_in(m, key) {
        Some(x) => as_str_of(x),
        None => None,
    }
}

fn list_at_key(m: &Vec<(Yaml, Yaml)>, key: &str) -> (r: Vec<String>)
    ensures
        r.deep_view() == list_at(m@, key@),
{
    match lookup_in(m, key) {
        Some(x) => as_string_list(x),
        None => {
            let out: Vec<String> = Vec::new();
            assert(out.deep_view() =~= Seq::<Seq<char>>::empty());
            out
        },
    }
}

fn value_to_simple_string(v: &Yaml) -> (r: Option<String>)
    ensures
        opt_str_view(r) == simple_string(*v),
{
    match v {
        Yaml::Str(s) => Some(s.clone()),
        Yaml::Bool(b) => if *b {
            Some(String::from_str("true"))
        } else {
            Some(String::from_str("false"))
        },
        Yaml::Number(n) => Some(n.clone()),
        Yaml::Mapping(m) => str_at_key(m, "value"),
        _ => None,
    }
}

fn as_string_map(v: &Yaml) -> (r: StrMap)
    ensures
        r@ == vars_of(*v),
{
    let mut out = StrMap::new();
    if let Yaml::Mapping(m) = v {
        let mut i: usize = 0;
        assert(m@.take(0) =~= Seq::<(Yaml, Yaml)>::empty());
        while i < m.len()
            invariant
                i <= m@.len(),
                out@ == var_entries(m@.take(i as int)),
            decreases m@.len() - i,
        {
            assert(m@.take(i + 1).drop_last() == m@.take(i as int));
            assert(m@.take(i + 1).last() == m@[i as int]);
            let k = as_str_of(&m[i].0);
            let x = value_to_simple_string(&m[i].1);
            match (k, x) {
                (Some(k), Some(x)) => {
                    out.insert(k, x);
                },
                _ => {},
            }
            i += 1;
        }
        assert(m@.take(i as int) == m@);
    }
    out
}

fn extract_image(v: &Yaml) -> (r: Option<String>)
    ensures
        opt_str_view(r) == image_of(*v),
{
    match v {
        Yaml::Str(s) => Some(s.clone()),
        Yaml::Mapping(m) => str_at_key(m, "name"),
        _ => None,
    }
}

fn image_at_key(m: &Vec<(Yaml, Yaml)>) -> (r: Option<String>)
    ensures
        opt_str_view(r) == image_at(m@),
{
    match lookup_in(m, "image") {
        Some(x) => extract_image(x),
        None => None,
    }
}

fn parse_default(v: &Yaml) -> (r: Option<CiDefault>)
    ensures
        r.deep_view() == default_of(*v),
{
    match v {
        Yaml::Mapping(m) => {
            let d = CiDefault { image: image_at_key(m), tags: list_at_key(m, "tags") };
            assert(d.image.deep_view() == opt_str_view(d.image));
            Some(d)
        },
        _ => None,
    }
}

fn parse_single_include(v: &Yaml) -> (r: Option<CiInclude>)
    ensures
        r.deep_view() == include_of(*v),
{
    match v {
        Yaml::Str(s) => Some(CiInclude::Local { file: s.clone() }),
        Yaml::Mapping(m) => {
            if let Some(s) = str_at_key(m, "local") {
                Some(CiInclude::Local { file: s })
            } else if let Some(s) = str_at_key(m, "remote") {
                Some(CiInclude::Remote { url: s })
            } else if let Some(s) = str_at_key(m, "template") {
                Some(CiInclude::Template { name: s })
            } else if let Some(s) = str_at_key(m, "component") {
                Some(CiInclude::Component { component: s })
            } else if let Some(s) = str_at_key(m, "project") {
                let files = match lookup_in(m, "file") {
                    Some(f) => as_string_list(f),
                    None => list_at_key(m, "files"),
                };
                let ref_ = str_at_key(m, "ref");
                assert(ref_.deep_view() == opt_str_view(ref_));
                Some(CiInclude::Project { project: s, ref_, files })
            } else {
                None
            }
        },
        _ => None,
    }
}

fn parse_includes(v: &Yaml) -> (r: Vec<CiInclude>)
    ensures
        r.deep_view() == includes_of(*v),
{
    let mut out: Vec<CiInclude> = Vec::new();
    match v {
        Yaml::Str(s) => {
            push_dv(&mut out, CiInclude::Local { file: s.clone() });
            assert(out.deep_view() =~= includes_of(*v));
        },
        Yaml::Sequence(xs) => {
            let mut i: usize = 0;
            assert(xs@.skip(0) == xs@);
            while i < xs.len()
                invariant
                    i <= xs@.len(),
                    include_items(xs@) == out.deep_view() + include_items(xs@.skip(i as int)),
                decreases xs@.len() - i,
            {
                assert(xs@.skip(i as int)[0] == xs@[i as int]);
                assert(xs@.skip(i as int).drop_first() == xs@.skip(i + 1));
                let ghost before = out.deep_view();
                match parse_single_include(&xs[i]) {
                    Some(inc) => {
                        push_dv(&mut out, inc);
                        assert(before + include_items(xs@.skip(i as int)) =~= out.deep_view()
                            + include_items(xs@.skip(i + 1)));
                    },
                    None => {},
                }
                i += 1;
            }
            assert(out.deep_view() + include_items(xs@.skip(i as int)) =~= out.deep_view());
        },
        Yaml::Mapping(_) => {
            match parse_single_include(v) {
                Some(inc) => {
                    push_dv(&mut out, inc);
                },
                None => {},
            }
            assert(out.deep_view() =~= includes_of(*v));
        },
        _ => {
            assert(out.deep_view() =~= includes_of(*v));
        },
    }
    out
}

fn need_item(v: &Yaml) -> (r: Option<String>)
    ensures
        opt_str_view(r) == need_of(*v),
{
    match v {
        Yaml::Str(s) => Some(s.clone()),
        Yaml::Mapping(m) => str_at_key(m, "job"),
        _ => None,
    }
}

fn parse_needs(v: &Yaml) -> (r: Vec<String>)
    ensures
        r.deep_view() == needs_of(*v),
{
    let mut out: Vec<String> = Vec::new();
    if let Yaml::Sequence(xs) = v {
        let mut i: usize = 0;
        assert(xs@.skip(0) == xs@);
        while i < xs.len()
            invariant
                i <= xs@.len(),
                need_items(xs@) == out.deep_view() + need_items(xs@.skip(i as int)),
            decreases xs@.len() - i,
        {
            assert(xs@.skip(i as int)[0] == xs@[i as int]);
            assert(xs@.skip(i as int).drop_first() == xs@.skip(i + 1));
            let ghost before = out.deep_view();
            match need_item(&xs[i]) {
                Some(s) => {
                    push_dv(&mut out, s);
                    assert(before + need_items(xs@.skip(i as int)) =~= out.deep_view()
                        + need_items(xs@.skip(i + 1)));
                },
                None => {},
            }
            i += 1;
        }
        assert(out.deep_view() + need_items(xs@.skip(i as int)) =~= out.deep_view());
    } else {
        assert(out.deep_view() =~= Seq::<Seq<char>>::empty());
    }
    out
}

fn flatten_script(v: &Yaml, out: &mut Vec<String>)
    ensures
        final(out).deep_view() == old(out).deep_view() + flatten(*v),
    decreases v,
{
    match v {
        Yaml::Str(s) => {
            push_dv(out, s.clone());
        },
        Yaml::Sequence(xs) => {
            let mut i: usize = 0;
            let ghost start = out.deep_view();
            assert(xs@.subrange(0, xs@.len() as int) == xs@);
            while i < xs.len()
                invariant
                    *v == Yaml::Sequence(*xs),
                    i <= xs@.len(),
                    start + flatten_items(xs@) == out.deep_view() + flatten_items(
                        xs@.subrange(i as int, xs@.len() as int),
                    ),
                decreases xs@.len() - i,
            {
                let ghost rest = xs@.subrange(i as int, xs@.len() as int);
                assert(rest[0] == xs@[i as int]);
                assert(rest.subrange(1, rest.len() as int) == xs@.subrange(i + 1, xs@.len() as int));
                let ghost before = out.deep_view();
                assert((*v)->Sequence_0 == *xs);
                assert(decreases_to!(*v => (*v)->Sequence_0));
                assert(decreases_to!(*xs => xs@));
                assert(decreases_to!(xs@ => xs@[i as int]));
                flatten_script(&xs[i], out);
                assert(before + flatten_items(rest) =~= out.deep_view() + flatten_items(
                    xs@.subrange(i + 1, xs@.len() as int),
                ));
                i += 1;
            }
            assert(out.deep_view() + flatten_items(xs@.subrange(i as int, xs@.len() as int))
                =~= out.deep_view());
        },
        _ => {
            assert(old(out).deep_view() + flatten(*v) =~= old(out).deep_view());
        },
    }
}

fn parse_job(name: String, v: &Yaml) -> (r: Option<CiJob>)
    ensures
        r.deep_view() == job_of(name@, *v),
{
    match v {
        Yaml::Mapping(m) => {
            let stage = str_at_key(m, "stage");
            let image = image_at_key(m);
            let tags = list_at_key(m, "tags");
            let extends = list_at_key(m, "extends");
            let needs = match lookup_in(m, "needs") {
                Some(x) => parse_needs(x),
                None => {
                    let e: Vec<String> = Vec::new();
                    assert(e.deep_view() =~= Seq::<Seq<char>>::empty());
                    e
                },
            };
            let mut script: Vec<String> = Vec::new();
            match lookup_in(m, "script") {
                Some(x) => {
                    flatten_script(x, &mut script);
                    assert(script.deep_view() =~= flatten(*x));
                },
                None => {
                    assert(script.deep_view() =~= Seq::<Seq<char>>::empty());
                },
            }
            assert(stage.deep_view() == opt_str_view(stage));
            assert(image.deep_view() == opt_str_view(image));
            Some(CiJob { name, stage, image, tags, extends, needs, script })
        },
        _ => None,
    }
}

fn is_reserved_key(name: &str) -> (r: bool)
    ensures
        r == is_reserved(name@),
{
    str_eq(name, "default") || str_eq(name, "include") || str_eq(name, "stages") || str_eq(
        name,
        "variables",
    ) || str_eq(name, "workflow") || str_eq(name, "image") || str_eq(name, "services")
        || str_eq(name, "cache") || str_eq(name, "before_script") || str_eq(name, "after_script")
        || str_eq(name, "pages") || str_eq(name, "spec")
}

fn parse_jobs(m: &Vec<(Yaml, Yaml)>) -> (r: Vec<CiJob>)
    ensures
        r.deep_view() == jobs_from(m@),
{
    let mut out: Vec<CiJob> = Vec::new();
    let mut i: usize = 0;
    assert(m@.skip(0) == m@);
    while i < m.len()
        invariant
            i <= m@.len(),
            jobs_from(m@) == out.deep_view() + jobs_from(m@.skip(i as int)),
        decreases m@.len() - i,
    {
        assert(m@.skip(i as int)[0] == m@[i as int]);
        assert(m@.skip(i as int).drop_first() == m@.skip(i + 1));
        let ghost before = out.deep_view();
        if let Some(name) = as_str_of(&m[i].0) {
            if !is_reserved_key(name.as_str()) {
                if let Some(job) = parse_job(name, &m[i].1) {
                    push_dv(&mut out, job);
                    assert(before + jobs_from(m@.skip(i as int)) =~= out.deep_view() + jobs_from(
                        m@.skip(i + 1),
                    ));
                }
            }
        }
        i += 1;
    }
    assert(out.deep_view() + jobs_from(m@.skip(i as int)) =~= out.deep_view());
    out
}

/// Appends `img` unless it is already there.
fn add_image(images: &mut Vec<String>, img: &String)
    ensures
        final(images).deep_view() == (if old(images).deep_view().contains(img@) {
            old(images).deep_view()
        } else {
            old(images).deep_view().push(img@)
        }),
{
    if !contains_str(images, img.as_str()) {
        push_dv(images, img.clone());
    }
}

fn collect_images(default: &Option<CiDefault>, jobs: &Vec<CiJob>) -> (r: Vec<String>)
    ensures
        r.deep_view() == images_of(default.deep_view(), jobs.deep_view()),
{
    let ghost first: Seq<Seq<char>> = match default.deep_view() {
        Some(d) => match d.image {
            Some(i) => seq![i],
            None => Seq::empty(),
        },
        None => Seq::empty(),
    };
    let ghost all = first + job_images(jobs.deep_view());
    let mut out: Vec<String> = Vec::new();
    assert(dedup(Seq::<Seq<char>>::empty()) == Seq::<Seq<char>>::empty());
    assert(out.deep_view() =~= Seq::<Seq<char>>::empty());
    if let Some(d) = default {
        if let Some(img) = &d.image {
            add_image(&mut out, img);
            assert(first == seq![img@]);
            assert(first.drop_last() =~= Seq::<Seq<char>>::empty());
            assert(out.deep_view() =~= seq![img@]);
        }
    }
    assert(out.deep_view() == dedup(first));
    let ghost jv = jobs.deep_view();
    let ghost mut seen = first;
    let mut i: usize = 0;
    assert(jv.skip(0) == jv);
    while i < jobs.len()
        invariant
            i <= jobs@.len(),
            jv == jobs.deep_view(),
            all == first + job_images(jv),
            seen + job_images(jv.skip(i as int)) == all,
            out.deep_view() == dedup(seen),
        decreases jobs@.len() - i,
    {
        assert(jv.skip(i as int)[0] == jv[i as int]);
        assert(jv.skip(i as int).drop_first() == jv.skip(i + 1));
        assert(jv[i as int] == jobs@[i as int].deep_view());
        if let Some(img) = &jobs[i].image {
            add_image(&mut out, img);
            proof {
                assert(seen.push(img@).drop_last() == seen);
                assert(seen.push(img@) + job_images(jv.skip(i + 1)) =~= seen + job_images(
                    jv.skip(i as int),
                ));
                seen = seen.push(img@);
            }
        }
        i += 1;
    }
    assert(seen == all);
    out
}

/// The parse of an already loaded document: a mapping yields its stages,
/// default, variables, includes, jobs and images; an empty document yields
/// nothing; any other document is refused.
pub fn parse_document(root: &Yaml) -> (r: Result<ParsedGitlabCi, CiParseError>)
    ensures
        match ci_of_root(*root) {
            Some(c) => r matches Ok(p) && p.deep_view() == c,
            None => r matches Err(CiParseError::RootNotMapping),
        },
{
    match root {
        Yaml::Mapping(m) => {
            let stages = list_at_key(m, "stages");
            let default = match lookup_in(m, "default") {
                Some(v) => parse_default(v),
                None => None,
            };
            let variables = match lookup_in(m, "variables") {
                Some(v) => as_string_map(v),
                None => StrMap::new(),
            };
            let includes = match lookup_in(m, "include") {
                Some(v) => parse_includes(v),
                None => {
                    let e: Vec<CiInclude> = Vec::new();
                    assert(e.deep_view() =~= Seq::<IncludeV>::empty());
                    e
                },
            };
            let jobs = parse_jobs(m);
            let images = collect_images(&default, &jobs);
            Ok(ParsedGitlabCi { stages, default, variables, includes, jobs, images })
        },
        Yaml::Null => Ok(ParsedGitlabCi::default()),
        _ => Err(CiParseError::RootNotMapping),
    }
}

/// Why a `.gitlab-ci.yml` was not read.
#[derive(Debug)]
pub enum CiParseError {
    /// The YAML itself was refused.
    Yaml(serde_yaml_ng::Error),
    /// The document is neither a mapping nor empty.
    RootNotMapping,
}

/// Reads a `.gitlab-ci.yml`: malformed YAML and a document that is not a
/// mapping are refused; an empty document yields an empty result.
pub fn parse(raw: &str) -> (r: Result<ParsedGitlabCi, CiParseError>)
    ensures
        match yaml_document(raw@) {
            None => r matches Err(CiParseError::Yaml(_)),
            Some(root) => match ci_of_root(root) {
                Some(c) => r matches Ok(p) && p.deep_view() == c,
                None => r matches Err(CiParseError::RootNotMapping),
            },
        },
{
    match load_yaml(raw) {
        Ok(root) => parse_document(&root),
        Err(e) => Err(CiParseError::Yaml(e)),
    }
}

} // verus!
