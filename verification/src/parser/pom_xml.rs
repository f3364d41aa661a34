//! `pom.xml`: the project's coordinates, its parent, its properties, its
//! dependencies and its build plugins, read from the XML event stream by a
//! machine that tracks the path of open elements. Other elements are
//! ignored.
use vstd::prelude::*;
use crate::model::{
    ParsedPomXml, PomCoordinate, PomDependency, PomPlugin, PomXmlV, CoordinateV, DependencyV,
    PluginV, empty_pom_xml,
};
use crate::text::{str_eq, push_dv, utf8_decode, string_from_chars, chars_of, sub_chars};
use crate::xml::{XmlEvent, read_xml_events, xml_event_stream};

verus! {

/// The part of `s` after its last `:` (all of `s` when it has none).
pub open spec fn after_last_colon(s: Seq<char>) -> Seq<char>
    decreases s.len(),
{
    if s.len() == 0 {
        s
    } else if s.last() == ':' {
        Seq::empty()
    } else {
        after_last_colon(s.drop_last()).push(s.last())
    }
}

/// An element's local name: its qualified name without the namespace
/// prefix; a name that is not UTF-8 counts as empty.
pub open spec fn local_name_text(raw: Seq<u8>) -> Seq<char> {
    if vstd::utf8::valid_utf8(raw) {
        after_last_colon(vstd::utf8::decode_utf8(raw))
    } else {
        Seq::empty()
    }
}

/// The reader's state: the local names of the open elements, what has been
/// read so far, and the parent, dependency and plugin under construction.
pub struct PomState {
    pub stack: Seq<Seq<char>>,
    pub out: PomXmlV,
    pub parent: Option<CoordinateV>,
    pub dep: Option<DependencyV>,
    pub plugin: Option<PluginV>,
}

pub open spec fn initial_state() -> PomState {
    PomState {
        stack: Seq::empty(),
        out: empty_pom_xml(),
        parent: None,
        dep: None,
        plugin: None,
    }
}

pub open spec fn parent_path() -> Seq<Seq<char>> {
    seq!["project"@, "parent"@]
}

pub open spec fn dependency_path() -> Seq<Seq<char>> {
    seq!["project"@, "dependencies"@, "dependency"@]
}

pub open spec fn plugin_path() -> Seq<Seq<char>> {
    seq!["project"@, "build"@, "plugins"@, "plugin"@]
}

/// Whether the open elements begin with `path`.
pub open spec fn under(stack: Seq<Seq<char>>, path: Seq<Seq<char>>) -> bool {
    path.len() <= stack.len() && stack.subrange(0, path.len() as int) == path
}

/// A start tag: its local name is pushed; entering `project.parent`,
/// `project.dependencies.dependency` or `project.build.plugins.plugin`
/// starts a fresh item with empty fields.
pub open spec fn start_step(st: PomState, name: Seq<char>) -> PomState {
    let stack = st.stack.push(name);
    if stack == parent_path() {
        PomState {
            stack,
            parent: Some(CoordinateV { group_id: Seq::empty(), artifact_id: Seq::empty(), version: Seq::empty() }),
            ..st
        }
    } else if stack == dependency_path() {
        PomState {
            stack,
            dep: Some(DependencyV { group_id: Seq::empty(), artifact_id: Seq::empty(), version: None, scope: None }),
            ..st
        }
    } else if stack == plugin_path() {
        PomState {
            stack,
            plugin: Some(PluginV { group_id: Seq::empty(), artifact_id: Seq::empty(), version: None }),
            ..st
        }
    } else {
        PomState { stack, ..st }
    }
}

/// An end tag: the innermost element is closed; closing one of the three
/// items moves it into the result.
pub open spec fn end_step(st: PomState) -> PomState {
    if st.stack.len() == 0 {
        st
    } else {
        let popped = st.stack.last();
        let stack = st.stack.drop_last();
        if popped == "parent"@ && stack == seq!["project"@] {
            PomState {
                stack,
                parent: None,
                out: match st.parent {
                    Some(p) => PomXmlV { parent: Some(p), ..st.out },
                    None => st.out,
                },
                ..st
            }
        } else if popped == "dependency"@ && stack == seq!["project"@, "dependencies"@] {
            PomState {
                stack,
                dep: None,
                out: match st.dep {
                    Some(d) => PomXmlV { dependencies: st.out.dependencies.push(d), ..st.out },
                    None => st.out,
                },
                ..st
            }
        } else if popped == "plugin"@ && stack == seq!["project"@, "build"@, "plugins"@] {
            PomState {
                stack,
                plugin: None,
                out: match st.plugin {
                    Some(p) => PomXmlV { plugins: st.out.plugins.push(p), ..st.out },
                    None => st.out,
                },
                ..st
            }
        } else {
            PomState { stack, ..st }
        }
    }
}

pub open spec fn set_coordinate(p: CoordinateV, k: Seq<char>, t: Seq<char>) -> CoordinateV {
    if k == "groupId"@ {
        CoordinateV { group_id: t, ..p }
    } else if k == "artifactId"@ {
        CoordinateV { artifact_id: t, ..p }
    } else if k == "version"@ {
        CoordinateV { version: t, ..p }
    } else {
        p
    }
}

pub open spec fn set_dependency(d: DependencyV, k: Seq<char>, t: Seq<char>) -> DependencyV {
    if k == "groupId"@ {
        DependencyV { group_id: t, ..d }
    } else if k == "artifactId"@ {
        DependencyV { artifact_id: t, ..d }
    } else if k == "version"@ {
        DependencyV { version: Some(t), ..d }
    } else if k == "scope"@ {
        DependencyV { scope: Some(t), ..d }
    } else {
        d
    }
}

pub open spec fn set_plugin(p: PluginV, k: Seq<char>, t: Seq<char>) -> PluginV {
    if k == "groupId"@ {
        PluginV { group_id: t, ..p }
    } else if k == "artifactId"@ {
        PluginV { artifact_id: t, ..p }
    } else if k == "version"@ {
        PluginV { version: Some(t), ..p }
    } else {
        p
    }
}

/// Character data: stored according to the path of open elements.
pub open spec fn text_step(st: PomState, t: Seq<char>) -> PomState {
    let s = st.stack;
    if s == seq!["project"@, "groupId"@] {
        PomState { out: PomXmlV { group_id: Some(t), ..st.out }, ..st }
    } else if s == seq!["project"@, "artifactId"@] {
        PomState { out: PomXmlV { artifact_id: Some(t), ..st.out }, ..st }
    } else if s == seq!["project"@, "version"@] {
        PomState { out: PomXmlV { version: Some(t), ..st.out }, ..st }
    } else if s.len() == 3 && under(s, parent_path()) {
        match st.parent {
            Some(p) => PomState { parent: Some(set_coordinate(p, s[2], t)), ..st },
            None => st,
        }
    } else if s.len() == 3 && under(s, seq!["project"@, "properties"@]) {
        PomState {
            out: PomXmlV { properties: st.out.properties.insert(s[2], t), ..st.out },
            ..st
        }
    } else if s.len() == 4 && under(s, dependency_path()) {
        match st.dep {
            Some(d) => PomState { dep: Some(set_dependency(d, s[3], t)), ..st },
            None => st,
        }
    } else if s.len() == 5 && under(s, plugin_path()) {
        match st.plugin {
            Some(p) => PomState { plugin: Some(set_plugin(p, s[4], t)), ..st },
            None => st,
        }
    } else {
        st
    }
}

/// Whether a text event took `old` to `new` touching at most one field:
/// the open elements, the finished parent, dependencies and plugins stay;
/// at most one of the result, the parent, the dependency and the plugin
/// under construction changes; and each changes only where the open
/// elements select it: the result under `project.groupId`,
/// `project.artifactId`, `project.version` or `project.properties.*`, an
/// item under construction only on one of its known fields.
pub open spec fn text_changes_one_field(old: PomState, new: PomState) -> bool {
    let s = old.stack;
    &&& new.stack == s
    &&& new.out.parent == old.out.parent
    &&& new.out.dependencies == old.out.dependencies
    &&& new.out.plugins == old.out.plugins
    &&& new.out != old.out ==> new.parent == old.parent && new.dep == old.dep && new.plugin
        == old.plugin
    &&& new.parent != old.parent ==> new.out == old.out && new.dep == old.dep && new.plugin
        == old.plugin
    &&& new.dep != old.dep ==> new.out == old.out && new.parent == old.parent && new.plugin
        == old.plugin
    &&& new.plugin != old.plugin ==> new.out == old.out && new.parent == old.parent && new.dep
        == old.dep
    &&& new.out != old.out ==> {
        ||| s == seq!["project"@, "groupId"@]
        ||| s == seq!["project"@, "artifactId"@]
        ||| s == seq!["project"@, "version"@]
        ||| s.len() == 3 && under(s, seq!["project"@, "properties"@])
    }
    &&& new.parent != old.parent ==> s.len() == 3 && under(s, parent_path()) && old.parent is Some
        && (s[2] == "groupId"@ || s[2] == "artifactId"@ || s[2] == "version"@)
    &&& new.dep != old.dep ==> s.len() == 4 && under(s, dependency_path()) && old.dep is Some && (
    s[3] == "groupId"@ || s[3] == "artifactId"@ || s[3] == "version"@ || s[3] == "scope"@)
    &&& new.plugin != old.plugin ==> s.len() == 5 && under(s, plugin_path()) && old.plugin is Some
        && (s[4] == "groupId"@ || s[4] == "artifactId"@ || s[4] == "version"@)
}

/// Character data changes at most one field of the reader's state, the one
/// that the path of open elements selects, and never the open elements nor
/// the parent, dependencies and plugins already read.
pub proof fn text_step_changes_one_field(st: PomState, t: Seq<char>)
    ensures
        text_changes_one_field(st, text_step(st, t)),
{
}

/// Text directly under `project.groupId`, `project.artifactId` or
/// `project.version` becomes that coordinate of the project, and text
/// under `project.properties.<name>` becomes property `<name>`.
/// The element names that the reader tells apart are distinct.
proof fn lemma_field_names_distinct()
    ensures
        "groupId"@ != "artifactId"@,
        "groupId"@ != "version"@,
        "groupId"@ != "scope"@,
        "artifactId"@ != "version"@,
        "artifactId"@ != "scope"@,
        "version"@ != "scope"@,
        "parent"@ != "properties"@,
{
    reveal_strlit("groupId");
    reveal_strlit("artifactId");
    reveal_strlit("version");
    reveal_strlit("scope");
    reveal_strlit("parent");
    reveal_strlit("properties");
    assert("groupId"@.len() == 7);
    assert("artifactId"@.len() == 10);
    assert("version"@.len() == 7);
    assert("scope"@.len() == 5);
    assert("groupId"@[0] != "version"@[0]);
    assert("parent"@.len() == 6);
    assert("properties"@.len() == 10);
}

pub proof fn text_sets_project_fields(st: PomState, t: Seq<char>)
    ensures
        st.stack == seq!["project"@, "groupId"@] ==> text_step(st, t).out == (PomXmlV {
            group_id: Some(t),
            ..st.out
        }),
        st.stack == seq!["project"@, "artifactId"@] ==> text_step(st, t).out == (PomXmlV {
            artifact_id: Some(t),
            ..st.out
        }),
        st.stack == seq!["project"@, "version"@] ==> text_step(st, t).out == (PomXmlV {
            version: Some(t),
            ..st.out
        }),
        st.stack.len() == 3 && st.stack[0] == "project"@ && st.stack[1] == "properties"@
            ==> text_step(st, t).out == (PomXmlV {
            properties: st.out.properties.insert(st.stack[2], t),
            ..st.out
        }),
{
    lemma_field_names_distinct();
    let s = st.stack;
    if s == seq!["project"@, "artifactId"@] || s == seq!["project"@, "version"@] {
        assert(s[1] != "groupId"@);
    }
    if s.len() == 3 && s[0] == "project"@ && s[1] == "properties"@ {
        assert(s.subrange(0, 2) =~= seq!["project"@, "properties"@]);
        assert(s.subrange(0, 2)[1] != parent_path()[1]);
        assert(!under(s, parent_path()));
    }
}

/// Text under `project.parent.<field>`, for a known field, sets that field
/// of the parent under construction.
pub proof fn text_sets_parent_fields(st: PomState, t: Seq<char>)
    ensures
        st.stack == seq!["project"@, "parent"@, "groupId"@] && (st.parent is Some) ==> text_step(
            st,
            t,
        ).parent == Some((CoordinateV { group_id: t, ..st.parent.unwrap() })),
        st.stack == seq!["project"@, "parent"@, "artifactId"@] && (st.parent is Some) ==> text_step(
            st,
            t,
        ).parent == Some((CoordinateV { artifact_id: t, ..st.parent.unwrap() })),
        st.stack == seq!["project"@, "parent"@, "version"@] && (st.parent is Some) ==> text_step(
            st,
            t,
        ).parent == Some((CoordinateV { version: t, ..st.parent.unwrap() })),
{
    lemma_field_names_distinct();
    assert(seq!["project"@, "parent"@, "groupId"@].subrange(0, 2) =~= parent_path());
    assert(seq!["project"@, "parent"@, "artifactId"@].subrange(0, 2) =~= parent_path());
    assert(seq!["project"@, "parent"@, "version"@].subrange(0, 2) =~= parent_path());
}

/// Text under `project.dependencies.dependency.<field>`, for a known
/// field, sets that field of the dependency under construction.
pub proof fn text_sets_dependency_fields(st: PomState, t: Seq<char>)
    ensures
        st.stack == seq!["project"@, "dependencies"@, "dependency"@, "groupId"@] && (st.dep is Some)
            ==> text_step(st, t).dep == Some((DependencyV { group_id: t, ..st.dep.unwrap() })),
        st.stack == seq!["project"@, "dependencies"@, "dependency"@, "artifactId"@] && (st.dep is Some)
            ==> text_step(st, t).dep == Some((DependencyV { artifact_id: t, ..st.dep.unwrap() })),
        st.stack == seq!["project"@, "dependencies"@, "dependency"@, "version"@] && (st.dep is Some)
            ==> text_step(st, t).dep == Some((DependencyV { version: Some(t), ..st.dep.unwrap() })),
        st.stack == seq!["project"@, "dependencies"@, "dependency"@, "scope"@] && (st.dep is Some)
            ==> text_step(st, t).dep == Some((DependencyV { scope: Some(t), ..st.dep.unwrap() })),
{
    lemma_field_names_distinct();
    assert(seq!["project"@, "dependencies"@, "dependency"@, "groupId"@].subrange(0, 3)
        =~= dependency_path());
    assert(seq!["project"@, "dependencies"@, "dependency"@, "artifactId"@].subrange(0, 3)
        =~= dependency_path());
    assert(seq!["project"@, "dependencies"@, "dependency"@, "version"@].subrange(0, 3)
        =~= dependency_path());
    assert(seq!["project"@, "dependencies"@, "dependency"@, "scope"@].subrange(0, 3)
        =~= dependency_path());
}

/// Text under `project.build.plugins.plugin.<field>`, for a known field,
/// sets that field of the plugin under construction.
pub proof fn text_sets_plugin_fields(st: PomState, t: Seq<char>)
    ensures
        st.stack == seq!["project"@, "build"@, "plugins"@, "plugin"@, "groupId"@] && (st.plugin is Some)
            ==> text_step(st, t).plugin == Some((PluginV { group_id: t, ..st.plugin.unwrap() })),
        st.stack == seq!["project"@, "build"@, "plugins"@, "plugin"@, "artifactId"@]
            && (st.plugin is Some) ==> text_step(st, t).plugin == Some((
            PluginV { artifact_id: t, ..st.plugin.unwrap() }),
        ),
        st.stack == seq!["project"@, "build"@, "plugins"@, "plugin"@, "version"@] && (st.plugin is Some)
            ==> text_step(st, t).plugin == Some((PluginV { version: Some(t), ..st.plugin.unwrap() })),
{
    lemma_field_names_distinct();
    assert(seq!["project"@, "build"@, "plugins"@, "plugin"@, "groupId"@].subrange(0, 4)
        =~= plugin_path());
    assert(seq!["project"@, "build"@, "plugins"@, "plugin"@, "artifactId"@].subrange(0, 4)
        =~= plugin_path());
    assert(seq!["project"@, "build"@, "plugins"@, "plugin"@, "version"@].subrange(0, 4)
        =~= plugin_path());
}

/// Opening `project.parent`, `project.dependencies.dependency` or
/// `project.build.plugins.plugin` starts that item afresh, with empty
/// fields; any start tag is pushed on the open elements.
pub proof fn start_begins_items(st: PomState, name: Seq<char>)
    ensures
        start_step(st, name).stack == st.stack.push(name),
        st.stack == seq!["project"@] && name == "parent"@ ==> start_step(st, name).parent == Some(
            (CoordinateV { group_id: Seq::empty(), artifact_id: Seq::empty(), version: Seq::empty() }),
        ),
        st.stack == seq!["project"@, "dependencies"@] && name == "dependency"@ ==> start_step(
            st,
            name,
        ).dep == Some(
            (DependencyV {
                group_id: Seq::empty(),
                artifact_id: Seq::empty(),
                version: None,
                scope: None,
            }),
        ),
        st.stack == seq!["project"@, "build"@, "plugins"@] && name == "plugin"@ ==> start_step(
            st,
            name,
        ).plugin == Some(
            (PluginV { group_id: Seq::empty(), artifact_id: Seq::empty(), version: None }),
        ),
        start_step(st, name).out == st.out,
{
    assert(seq!["project"@].push("parent"@) =~= parent_path());
    assert(seq!["project"@, "dependencies"@].push("dependency"@) =~= dependency_path());
    assert(seq!["project"@, "build"@, "plugins"@].push("plugin"@) =~= plugin_path());
}

/// Closing `project.parent` makes the parent under construction the
/// project's parent; closing `project.dependencies.dependency` appends the
/// dependency under construction to the dependencies, and closing
/// `project.build.plugins.plugin` appends the plugin to the plugins. The
/// other finished parts stay as they were.
pub proof fn end_finishes_items(st: PomState)
    ensures
        st.stack == seq!["project"@, "parent"@] && (st.parent is Some) ==> end_step(st).out == (
        PomXmlV { parent: st.parent, ..st.out }),
        st.stack == seq!["project"@, "dependencies"@, "dependency"@] && (st.dep is Some)
            ==> end_step(st).out == (PomXmlV {
            dependencies: st.out.dependencies.push(st.dep.unwrap()),
            ..st.out
        }),
        st.stack == seq!["project"@, "build"@, "plugins"@, "plugin"@] && (st.plugin is Some)
            ==> end_step(st).out == (PomXmlV {
            plugins: st.out.plugins.push(st.plugin.unwrap()),
            ..st.out
        }),
        st.stack.len() > 0 ==> end_step(st).stack == st.stack.drop_last(),
{
    assert(seq!["project"@, "parent"@].drop_last() =~= seq!["project"@]);
    assert(seq!["project"@, "dependencies"@, "dependency"@].drop_last() =~= seq![
        "project"@,
        "dependencies"@,
    ]);
    assert(seq!["project"@, "build"@, "plugins"@, "plugin"@].drop_last() =~= seq![
        "project"@,
        "build"@,
        "plugins"@,
    ]);
}

pub open spec fn pom_step(st: PomState, ev: XmlEvent) -> PomState {
    match ev {
        XmlEvent::Start(name) => start_step(st, local_name_text(name@)),
        XmlEvent::End => end_step(st),
        XmlEvent::Text(t) => text_step(st, t@),
        XmlEvent::Other => st,
    }
}

/// The state after reading `evs` from the start.
pub open spec fn pom_run(evs: Seq<XmlEvent>) -> PomState
    decreases evs.len(),
{
    if evs.len() == 0 {
        initial_state()
    } else {
        pom_step(pom_run(evs.drop_last()), evs.last())
    }
}

/// What a whole event stream yields.
pub open spec fn pom_of_events(evs: Seq<XmlEvent>) -> PomXmlV {
    pom_run(evs).out
}


pub open spec fn strs_view(p: Seq<&str>) -> Seq<Seq<char>> {
    p.map_values(|s: &str| s@)
}

fn is_under(stack: &Vec<String>, path: &[&str]) -> (r: bool)
    ensures
        r == under(stack.deep_view(), strs_view(path@)),
{
    if path.len() > stack.len() {
        return false;
    }
    let mut i: usize = 0;
    while i < path.len()
        invariant
            i <= path@.len() <= stack@.len(),
            forall|j: int| 0 <= j < i ==> stack@[j]@ == path@[j]@,
        decreases path@.len() - i,
    {
        if !str_eq(stack[i].as_str(), path[i]) {
            assert(stack.deep_view().subrange(0, path@.len() as int)[i as int] != strs_view(
                path@,
            )[i as int]);
            return false;
        }
        i += 1;
    }
    assert(stack.deep_view().subrange(0, path@.len() as int) =~= strs_view(path@));
    true
}

fn is_path(stack: &Vec<String>, path: &[&str]) -> (r: bool)
    ensures
        r == (stack.deep_view() == strs_view(path@)),
{
    if stack.len() != path.len() {
        assert(stack.deep_view().len() != strs_view(path@).len());
        return false;
    }
    assert(stack.deep_view().subrange(0, path@.len() as int) =~= stack.deep_view());
    is_under(stack, path)
}

fn path1(a: &'static str) -> (r: Vec<&'static str>)
    ensures
        strs_view(r@) == seq![a@],
{
    let mut v: Vec<&'static str> = Vec::new();
    v.push(a);
    assert(strs_view(v@) =~= seq![a@]);
    v
}

fn path2(a: &'static str, b: &'static str) -> (r: Vec<&'static str>)
    ensures
        strs_view(r@) == seq![a@, b@],
{
    let mut v: Vec<&'static str> = Vec::new();
    v.push(a);
    v.push(b);
    assert(strs_view(v@) =~= seq![a@, b@]);
    v
}

fn path3(a: &'static str, b: &'static str, c: &'static str) -> (r: Vec<&'static str>)
    ensures
        strs_view(r@) == seq![a@, b@, c@],
{
    let mut v: Vec<&'static str> = Vec::new();
    v.push(a);
    v.push(b);
    v.push(c);
    assert(strs_view(v@) =~= seq![a@, b@, c@]);
    v
}

fn path4(a: &'static str, b: &'static str, c: &'static str, d: &'static str) -> (r: Vec<
    &'static str,
>)
    ensures
        strs_view(r@) == seq![a@, b@, c@, d@],
{
    let mut v: Vec<&'static str> = Vec::new();
    v.push(a);
    v.push(b);
    v.push(c);
    v.push(d);
    assert(strs_view(v@) =~= seq![a@, b@, c@, d@]);
    v
}

/// The local name of a tag, from its raw qualified name.
pub fn local_name(raw: &Vec<u8>) -> (r: String)
    ensures
        r@ == local_name_text(raw@),
{
    match utf8_decode(raw.as_slice()) {
        None => String::new(),
        Some(s) => {
            let cs = chars_of(s.as_str());
            let ghost full = cs@;
            let mut j: usize = cs.len();
            assert(full.take(j as int) == full);
            assert(full.subrange(j as int, j as int) =~= Seq::<char>::empty());
            while j > 0 && cs[j - 1] != ':'
                invariant
                    j <= full.len(),
                    cs@ == full,
                    after_last_colon(full) == after_last_colon(full.take(j as int))
                        + full.subrange(j as int, full.len() as int),
                decreases j,
            {
                assert(full.take(j as int).drop_last() == full.take(j - 1));
                assert(full.take(j as int).last() == full[j - 1]);
                assert(full.subrange(j - 1, full.len() as int) =~= seq![full[j - 1]]
                    + full.subrange(j as int, full.len() as int));
                assert(after_last_colon(full.take(j - 1)).push(full[j - 1]) + full.subrange(
                    j as int,
                    full.len() as int,
                ) =~= after_last_colon(full.take(j - 1)) + full.subrange(
                    j - 1,
                    full.len() as int,
                ));
                j -= 1;
            }
            if j > 0 {
                assert(full.take(j as int).last() == ':');
            }
            assert(after_last_colon(full.take(j as int)) =~= Seq::<char>::empty());
            string_from_chars(&sub_chars(&cs, j, cs.len()))
        },
    }
}

/// The reader's state in executable form.
struct PomReader {
    stack: Vec<String>,
    out: ParsedPomXml,
    parent: Option<PomCoordinate>,
    dep: Option<PomDependency>,
    plugin: Option<PomPlugin>,
}

impl PomReader {
    spec fn state(&self) -> PomState {
        PomState {
            stack: self.stack.deep_view(),
            out: self.out.deep_view(),
            parent: self.parent.deep_view(),
            dep: self.dep.deep_view(),
            plugin: self.plugin.deep_view(),
        }
    }

    fn new() -> (r: Self)
        ensures
            r.state() == initial_state(),
    {
        let r = PomReader {
            stack: Vec::new(),
            out: ParsedPomXml::default(),
            parent: None,
            dep: None,
            plugin: None,
        };
        assert(r.stack.deep_view() =~= Seq::<Seq<char>>::empty());
        r
    }

    fn start(&mut self, name: String)
        ensures
            final(self).state() == start_step(old(self).state(), name@),
    {
        push_dv(&mut self.stack, name);
        if is_path(&self.stack, path2("project", "parent").as_slice()) {
            self.parent = Some(
                PomCoordinate {
                    group_id: String::new(),
                    artifact_id: String::new(),
                    version: String::new(),
                },
            );
        } else if is_path(
            &self.stack,
            path3("project", "dependencies", "dependency").as_slice(),
        ) {
            self.dep = Some(
                PomDependency {
                    group_id: String::new(),
                    artifact_id: String::new(),
                    version: None,
                    scope: None,
                },
            );
        } else if is_path(
            &self.stack,
            path4("project", "build", "plugins", "plugin").as_slice(),
        ) {
            self.plugin = Some(
                PomPlugin { group_id: String::new(), artifact_id: String::new(), version: None },
            );
        }
    }

    fn end(&mut self)
        ensures
            final(self).state() == end_step(old(self).state()),
    {
        if self.stack.len() == 0 {
            return;
        }
        let ghost before = self.stack.deep_view();
        let popped = self.stack.pop().unwrap();
        assert(self.stack.deep_view() =~= before.drop_last());
        assert(popped@ == before.last());
        if str_eq(popped.as_str(), "parent") && is_path(
            &self.stack,
            path1("project").as_slice(),
        ) {
            if let Some(p) = self.parent.take() {
                self.out.parent = Some(p);
            }
        } else if str_eq(popped.as_str(), "dependency") && is_path(
            &self.stack,
            path2("project", "dependencies").as_slice(),
        ) {
            if let Some(d) = self.dep.take() {
                push_dv(&mut self.out.dependencies, d);
            }
        } else if str_eq(popped.as_str(), "plugin") && is_path(
            &self.stack,
            path3("project", "build", "plugins").as_slice(),
        ) {
            if let Some(p) = self.plugin.take() {
                push_dv(&mut self.out.plugins, p);
            }
        }
    }

    fn apply_text(&mut self, t: &String)
        ensures
            final(self).state() == text_step(old(self).state(), t@),
            text_changes_one_field(old(self).state(), final(self).state()),
    {
        proof {
            text_step_changes_one_field(self.state(), t@);
        }
        if is_path(&self.stack, path2("project", "groupId").as_slice()) {
            self.out.group_id = Some(t.clone());
        } else if is_path(&self.stack, path2("project", "artifactId").as_slice()) {
            self.out.artifact_id = Some(t.clone());
        } else if is_path(&self.stack, path2("project", "version").as_slice()) {
            self.out.version = Some(t.clone());
        } else if self.stack.len() == 3 && is_under(
            &self.stack,
            path2("project", "parent").as_slice(),
        ) {
            assert(self.stack.deep_view()[2] == self.stack@[2]@);
            if let Some(mut p) = self.parent.take() {
                let k = self.stack[2].as_str();
                if str_eq(k, "groupId") {
                    p.group_id = t.clone();
                } else if str_eq(k, "artifactId") {
                    p.artifact_id = t.clone();
                } else if str_eq(k, "version") {
                    p.version = t.clone();
                }
                self.parent = Some(p);
            }
        } else if self.stack.len() == 3 && is_under(
            &self.stack,
            path2("project", "properties").as_slice(),
        ) {
            assert(self.stack.deep_view()[2] == self.stack@[2]@);
            self.out.properties.insert(self.stack[2].clone(), t.clone());
        } else if self.stack.len() == 4 && is_under(
            &self.stack,
            path3("project", "dependencies", "dependency").as_slice(),
        ) {
            assert(self.stack.deep_view()[3] == self.stack@[3]@);
            if let Some(mut d) = self.dep.take() {
                let k = self.stack[3].as_str();
                if str_eq(k, "groupId") {
                    d.group_id = t.clone();
                } else if str_eq(k, "artifactId") {
                    d.artifact_id = t.clone();
                } else if str_eq(k, "version") {
                    d.version = Some(t.clone());
                } else if str_eq(k, "scope") {
                    d.scope = Some(t.clone());
                }
                self.dep = Some(d);
            }
        } else if self.stack.len() == 5 && is_under(
            &self.stack,
            path4("project", "build", "plugins", "plugin").as_slice(),
        ) {
            assert(self.stack.deep_view()[4] == self.stack@[4]@);
            if let Some(mut p) = self.plugin.take() {
                let k = self.stack[4].as_str();
                if str_eq(k, "groupId") {
                    p.group_id = t.clone();
                } else if str_eq(k, "artifactId") {
                    p.artifact_id = t.clone();
                } else if str_eq(k, "version") {
                    p.version = Some(t.clone());
                }
                self.plugin = Some(p);
            }
        }
    }

    fn step(&mut self, ev: &XmlEvent)
        ensures
            final(self).state() == pom_step(old(self).state(), *ev),
    {
        match ev {
            XmlEvent::Start(name) => self.start(local_name(name)),
            XmlEvent::End => self.end(),
            XmlEvent::Text(t) => self.apply_text(t),
            XmlEvent::Other => {},
        }
    }
}

/// What an event stream yields: the events are read in order by the path
/// machine (`pom_step`), and what it has collected at the end is returned;
/// items still open at the end are dropped.
pub fn pom_from_events(evs: &Vec<XmlEvent>) -> (r: ParsedPomXml)
    ensures
        r.deep_view() == pom_of_events(evs@),
{
    let mut rd = PomReader::new();
    let mut i: usize = 0;
    assert(evs@.take(0) =~= Seq::<XmlEvent>::empty());
    while i < evs.len()
        invariant
            i <= evs@.len(),
            rd.state() == pom_run(evs@.take(i as int)),
        decreases evs@.len() - i,
    {
        assert(evs@.take(i + 1).drop_last() == evs@.take(i as int));
        assert(evs@.take(i + 1).last() == evs@[i as int]);
        rd.step(&evs[i]);
        i += 1;
    }
    assert(evs@.take(i as int) == evs@);
    rd.out
}

/// Why a `pom.xml` was not read.
#[derive(Debug)]
pub enum PomXmlError {
    /// `quick_xml` refused the XML (a mismatched end tag, a bad escape, ...).
    Xml(quick_xml::Error),
}

/// Reads a `pom.xml`.
pub fn parse(raw: &str) -> (r: Result<ParsedPomXml, PomXmlError>)
    ensures
        match xml_event_stream(raw@) {
            None => r matches Err(PomXmlError::Xml(_)),
            Some(evs) => r matches Ok(p) && p.deep_view() == pom_of_events(evs),
        },
{
    match read_xml_events(raw) {
        Ok(evs) => Ok(pom_from_events(&evs)),
        Err(e) => Err(PomXmlError::Xml(e)),
    }
}

} // verus!
