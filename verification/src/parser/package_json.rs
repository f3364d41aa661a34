//! `package.json`: name, version and the string-valued members of the
//! dependency, script and engine tables. Values of other types are dropped;
//! only a malformed document or a root that is not an object is refused.
use vstd::prelude::*;
use crate::json::{Json, member, json_str, member_of, load_json, json_document};
use crate::model::{ParsedPackageJson, PackageJsonV, StrMap};
use crate::yaml::opt_str_view;

verus! {

/// The string members of an object, in order; a later name overrides an
/// earlier one.
pub open spec fn string_members(o: Seq<(String, Json)>) -> Map<Seq<char>, Seq<char>>
    decreases o.len(),
{
    if o.len() == 0 {
        Map::empty()
    } else {
        let acc = string_members(o.drop_last());
        match json_str(o.last().1) {
            Some(s) => acc.insert(o.last().0@, s),
            None => acc,
        }
    }
}

/// The table under `key`: its string members if it is an object, else
/// nothing.
pub open spec fn table_at(o: Seq<(String, Json)>, key: Seq<char>) -> Map<Seq<char>, Seq<char>> {
    match member(o, key) {
        Some(Json::Object(t)) => string_members(t@),
        _ => Map::empty(),
    }
}

pub open spec fn str_member(o: Seq<(String, Json)>, key: Seq<char>) -> Option<Seq<char>> {
    match member(o, key) {
        Some(v) => json_str(v),
        None => None,
    }
}

/// What a root object yields.
pub open spec fn package_of(o: Seq<(String, Json)>) -> PackageJsonV {
    PackageJsonV {
        name: str_member(o, "name"@),
        version: str_member(o, "version"@),
        dependencies: table_at(o, "dependencies"@),
        dev_dependencies: table_at(o, "devDependencies"@),
        peer_dependencies: table_at(o, "peerDependencies"@),
        scripts: table_at(o, "scripts"@),
        engines: table_at(o, "engines"@),
    }
}

/// A table keeps string values only: each of its entries is a member of
/// the object whose value is that string.
pub proof fn tables_keep_string_members(t: Seq<(String, Json)>)
    ensures
        forall|k: Seq<char>|
            #[trigger] string_members(t).contains_key(k) ==> exists|i: int|
                0 <= i < t.len() && t[i].0@ == k && json_str(t[i].1) == Some(
                    string_members(t)[k],
                ),
    decreases t.len(),
{
    if t.len() > 0 {
        let u = t.drop_last();
        tables_keep_string_members(u);
        assert forall|k: Seq<char>| #[trigger] string_members(t).contains_key(k) implies exists|
            i: int,
        | 0 <= i < t.len() && t[i].0@ == k && json_str(t[i].1) == Some(string_members(t)[k]) by {
            if json_str(t.last().1) is Some && k == t.last().0@ {
                assert(t[t.len() - 1] == t.last());
            } else {
                assert(string_members(u).contains_key(k));
                let i = choose|i: int|
                    0 <= i < u.len() && u[i].0@ == k && json_str(u[i].1) == Some(
                        string_members(u)[k],
                    );
                assert(t[i] == u[i]);
            }
        }
    }
}

/// Whether `m` holds exactly the string members of object `t`: a name is
/// a key of `m` when some member of that name has a string value, and its
/// value is that of the last such member.
pub open spec fn holds_string_members(m: Map<Seq<char>, Seq<char>>, t: Seq<(String, Json)>) -> bool {
    &&& forall|k: Seq<char>|
        #[trigger] m.contains_key(k) <==> exists|i: int|
            0 <= i < t.len() && t[i].0@ == k && (#[trigger] t[i].1 is Str)
    &&& forall|k: Seq<char>|
        #[trigger] m.contains_key(k) ==> exists|i: int|
            0 <= i < t.len() && t[i].0@ == k && t[i].1 == Json::Str(
                #[trigger] t[i].1->Str_0,
            ) && t[i].1->Str_0@ == m[k] && forall|j: int|
                i < j < t.len() && #[trigger] t[j].0@ == k ==> !(t[j].1 is Str)
}

/// Whether `m` is the table that member `key` of object `o` names: the
/// string members of that member when it is an object, else nothing.
pub open spec fn is_table_of(m: Map<Seq<char>, Seq<char>>, o: Seq<(String, Json)>, key: Seq<char>) -> bool {
    match member(o, key) {
        Some(Json::Object(t)) => holds_string_members(m, t@),
        _ => m == Map::<Seq<char>, Seq<char>>::empty(),
    }
}

proof fn lemma_string_members(t: Seq<(String, Json)>)
    ensures
        holds_string_members(string_members(t), t),
    decreases t.len(),
{
    if t.len() > 0 {
        let u = t.drop_last();
        lemma_string_members(u);
        let m = string_members(t);
        let mu = string_members(u);
        let n = t.len() - 1;
        assert(t[n] == t.last());
        assert forall|k: Seq<char>| #[trigger] m.contains_key(k) <==> exists|i: int|
            0 <= i < t.len() && t[i].0@ == k && (#[trigger] t[i].1 is Str) by {
            if exists|i: int| 0 <= i < t.len() && t[i].0@ == k && (#[trigger] t[i].1 is Str) {
                let i = choose|i: int| 0 <= i < t.len() && t[i].0@ == k && (#[trigger] t[i].1 is Str);
                if i < n {
                    assert(u[i] == t[i]);
                }
            }
            if mu.contains_key(k) {
                let i = choose|i: int| 0 <= i < u.len() && u[i].0@ == k && (#[trigger] u[i].1 is Str);
                assert(t[i] == u[i]);
            }
        }
        assert forall|k: Seq<char>| #[trigger] m.contains_key(k) implies exists|i: int|
            0 <= i < t.len() && t[i].0@ == k && t[i].1 == Json::Str(#[trigger] t[i].1->Str_0)
                && t[i].1->Str_0@ == m[k] && forall|j: int|
                i < j < t.len() && #[trigger] t[j].0@ == k ==> !(t[j].1 is Str) by {
            if t[n].1 is Str && t[n].0@ == k {
                assert(t[n].1 == Json::Str(t[n].1->Str_0));
            } else {
                assert(mu.contains_key(k));
                let i = choose|i: int|
                    0 <= i < u.len() && u[i].0@ == k && u[i].1 == Json::Str(#[trigger] u[i].1->Str_0)
                        && u[i].1->Str_0@ == mu[k] && forall|j: int|
                        i < j < u.len() && #[trigger] u[j].0@ == k ==> !(u[j].1 is Str);
                assert(t[i] == u[i]);
                assert forall|j: int| i < j < t.len() && #[trigger] t[j].0@ == k implies !(
                t[j].1 is Str) by {
                    if j < n {
                        assert(t[j] == u[j]);
                    }
                }
            }
        }
    }
}

/// Each field of a `package.json` comes from the member of the same JSON
/// name: `name` and `version` are those members when they are strings, and
/// `dependencies`, `devDependencies`, `peerDependencies`, `scripts` and
/// `engines` are the string members of those members.
pub proof fn package_fields_follow_member_names(o: Seq<(String, Json)>)
    ensures
        package_of(o).name == match member(o, "name"@) {
            Some(Json::Str(s)) => Some(s@),
            _ => None,
        },
        package_of(o).version == match member(o, "version"@) {
            Some(Json::Str(s)) => Some(s@),
            _ => None,
        },
        is_table_of(package_of(o).dependencies, o, "dependencies"@),
        is_table_of(package_of(o).dev_dependencies, o, "devDependencies"@),
        is_table_of(package_of(o).peer_dependencies, o, "peerDependencies"@),
        is_table_of(package_of(o).scripts, o, "scripts"@),
        is_table_of(package_of(o).engines, o, "engines"@),
{
    let keys = seq!["dependencies"@, "devDependencies"@, "peerDependencies"@, "scripts"@, "engines"@];
    assert forall|i: int| 0 <= i < keys.len() implies is_table_of(
        table_at(o, #[trigger] keys[i]),
        o,
        keys[i],
    ) by {
        if let Some(Json::Object(t)) = member(o, keys[i]) {
            lemma_string_members(t@);
        }
    }
    assert(keys[0] == "dependencies"@);
    assert(keys[1] == "devDependencies"@);
    assert(keys[2] == "peerDependencies"@);
    assert(keys[3] == "scripts"@);
    assert(keys[4] == "engines"@);
}

fn str_member_at(o: &Vec<(String, Json)>, key: &str) -> (r: Option<String>)
    ensures
        opt_str_view(r) == str_member(o@, key@),
{
    match member_of(o, key) {
        Some(Json::Str(s)) => Some(s.clone()),
        _ => None,
    }
}

fn string_map(o: &Vec<(String, Json)>, key: &str) -> (r: StrMap)
    ensures
        r@ == table_at(o@, key@),
{
    let mut out = StrMap::new();
    if let Some(Json::Object(t)) = member_of(o, key) {
        let mut i: usize = 0;
        assert(t@.take(0) =~= Seq::<(String, Json)>::empty());
        while i < t.len()
            invariant
                i <= t@.len(),
                out@ == string_members(t@.take(i as int)),
            decreases t@.len() - i,
        {
            assert(t@.take(i + 1).drop_last() == t@.take(i as int));
            assert(t@.take(i + 1).last() == t@[i as int]);
            if let Json::Str(s) = &t[i].1 {
                out.insert(t[i].0.clone(), s.clone());
            }
            i += 1;
        }
        assert(t@.take(i as int) == t@);
    }
    out
}

/// Why a `package.json` was not read.
#[derive(Debug)]
pub enum PackageJsonError {
    /// The JSON itself was refused.
    Json(serde_json::Error),
    /// The document is not an object.
    RootNotObject,
}

/// The parse of an already loaded document: an object yields its fields;
/// anything else is refused.
pub fn parse_document(root: &Json) -> (r: Result<ParsedPackageJson, PackageJsonError>)
    ensures
        match *root {
            Json::Object(o) => r matches Ok(p) && p.deep_view() == package_of(o@),
            _ => r matches Err(PackageJsonError::RootNotObject),
        },
{
    match root {
        Json::Object(o) => {
            let name = str_member_at(o, "name");
            let version = str_member_at(o, "version");
            assert(name.deep_view() == opt_str_view(name));
            assert(version.deep_view() == opt_str_view(version));
            Ok(
                ParsedPackageJson {
                    name,
                    version,
                    dependencies: string_map(o, "dependencies"),
                    dev_dependencies: string_map(o, "devDependencies"),
                    peer_dependencies: string_map(o, "peerDependencies"),
                    scripts: string_map(o, "scripts"),
                    engines: string_map(o, "engines"),
                },
            )
        },
        _ => Err(PackageJsonError::RootNotObject),
    }
}

/// Reads a `package.json`.
pub fn parse(raw: &str) -> (r: Result<ParsedPackageJson, PackageJsonError>)
    ensures
        match json_document(raw@) {
            None => r matches Err(PackageJsonError::Json(_)),
            Some(Json::Object(o)) => r matches Ok(p) && p.deep_view() == package_of(o@),
            Some(_) => r matches Err(PackageJsonError::RootNotObject),
        },
{
    match load_json(raw) {
        Ok(root) => parse_document(&root),
        Err(e) => Err(PackageJsonError::Json(e)),
    }
}

} // verus!
