//! The proxy's wire payloads: how usage records, the loader configuration and
//! the generated build configuration are read from and written as JSON.

use vstd::prelude::*;
use crate::json::{Json, JsonV, jview, jview_seq, jview_members, jget, parse_json, get_member,
    push_member, push_item, lemma_jview_seq_index, lemma_jview_members_index, lemma_jview_seq_len,
    lemma_jview_members_len, json_of};
use crate::text::{str_to_chars, chars_to_string};
use crate::usage::ModuleData;
use crate::client_config::{ClientLoaderConfig, PathMapping, ShimEntry};
use crate::bundle::{Module, DerivedBuildConfig, strs_view, modules_view};

verus! {

// ------------------------------------------------------------------
// Views of the library's types
// ------------------------------------------------------------------

pub open spec fn paths_view(ps: Seq<PathMapping>) -> Seq<(Seq<char>, Seq<char>)> {
    ps.map_values(|p: PathMapping| (p.id@, p.path@))
}

pub open spec fn opt_str_view(e: Option<String>) -> Option<Seq<char>> {
    match e {
        Some(s) => Some(s@),
        None => None,
    }
}

pub open spec fn shims_view(ss: Seq<ShimEntry>) -> Seq<
    (Seq<char>, Seq<Seq<char>>, Option<Seq<char>>),
> {
    ss.map_values(|s: ShimEntry| (s.id@, strs_view(s.deps@), opt_str_view(s.exports)))
}

// ------------------------------------------------------------------
// Reading a tracking record
// ------------------------------------------------------------------

/// What a tracking payload document stands for: an object whose `url`, `id`
/// and `referrer` members are strings; anything else is no record.
pub open spec fn track_of(v: JsonV) -> Option<(Seq<char>, Seq<char>, Seq<char>)> {
    match v {
        JsonV::Obj(ms) => match (jget(ms, "url"@), jget(ms, "id"@), jget(ms, "referrer"@)) {
            (Some(JsonV::Str(u)), Some(JsonV::Str(i)), Some(JsonV::Str(r))) => Some((u, i, r)),
            _ => None,
        },
        _ => None,
    }
}

/// The record carried by a tracking parameter's text, if it is well formed.
pub open spec fn extract_spec(s: Seq<char>) -> Option<(Seq<char>, Seq<char>, Seq<char>)> {
    match json_of(s) {
        Some(v) => track_of(v),
        None => None,
    }
}

/// Read a usage record out of a parsed document.
pub fn module_data_of_json(j: &Json) -> (r: Option<ModuleData>)
    ensures
        match r {
            Some(m) => track_of(jview(*j)) == Some((m.url@, m.id@, m.referrer@)),
            None => track_of(jview(*j)) is None,
        },
{
    match j {
        Json::Obj(ms) => {
            let ku = str_to_chars("url");
            let u = match get_member(ms, &ku) {
                Some(Json::Str(s)) => chars_to_string(s),
                _ => {
                    return None;
                },
            };
            let ki = str_to_chars("id");
            let idv = match get_member(ms, &ki) {
                Some(Json::Str(s)) => chars_to_string(s),
                _ => {
                    return None;
                },
            };
            let kr = str_to_chars("referrer");
            let rv = match get_member(ms, &kr) {
                Some(Json::Str(s)) => chars_to_string(s),
                _ => {
                    return None;
                },
            };
            Some(ModuleData { url: u, id: idv, referrer: rv })
        },
        _ => None,
    }
}

/// Decode the designated tracking query parameter: its value is a JSON object
/// `{url, id, referrer}`; malformed or missing input yields no record.
pub fn extract_data(maybe_data: Option<&String>) -> (r: Option<ModuleData>)
    requires
        maybe_data is Some ==> maybe_data->0@.len() < usize::MAX,
    ensures
        match maybe_data {
            Some(d) => match r {
                Some(m) => extract_spec(d@) == Some((m.url@, m.id@, m.referrer@)),
                None => extract_spec(d@) is None,
            },
            None => r is None,
        },
{
    match maybe_data {
        Some(d) => {
            let chars = str_to_chars(d.as_str());
            match parse_json(&chars) {
                Some(j) => module_data_of_json(&j),
                None => None,
            }
        },
        None => None,
    }
}

// ------------------------------------------------------------------
// Writing usage records
// ------------------------------------------------------------------

pub open spec fn record_jv(m: ModuleData) -> JsonV {
    JsonV::Obj(
        seq![
            ("url"@, JsonV::Str(m.url@)),
            ("id"@, JsonV::Str(m.id@)),
            ("referrer"@, JsonV::Str(m.referrer@)),
        ],
    )
}

pub open spec fn records_jv(rs: Seq<ModuleData>) -> Seq<JsonV> {
    rs.map_values(|m: ModuleData| record_jv(m))
}

/// One usage record as a document.
pub fn json_of_record(m: &ModuleData) -> (r: Json)
    ensures
        jview(r) == record_jv(*m),
{
    let mut ms: Vec<(Vec<char>, Json)> = Vec::new();
    proof {
        assert(jview_members(ms@) =~= Seq::<(Seq<char>, JsonV)>::empty());
    }
    push_member(&mut ms, "url", Json::Str(str_to_chars(m.url.as_str())));
    push_member(&mut ms, "id", Json::Str(str_to_chars(m.id.as_str())));
    push_member(&mut ms, "referrer", Json::Str(str_to_chars(m.referrer.as_str())));
    proof {
        assert(jview_members(ms@) =~= record_jv(*m)->Obj_0);
    }
    Json::Obj(ms)
}

/// The accumulated records as a JSON array, in accumulation order.
pub fn json_of_records(rs: &Vec<ModuleData>) -> (r: Json)
    ensures
        jview(r) == JsonV::Arr(records_jv(rs@)),
{
    let mut out: Vec<Json> = Vec::new();
    let mut i: usize = 0;
    proof {
        assert(jview_seq(out@) =~= records_jv(rs@.subrange(0, 0)));
    }
    while i < rs.len()
        invariant
            0 <= i <= rs@.len(),
            jview_seq(out@) == records_jv(rs@.subrange(0, i as int)),
        decreases rs@.len() - i,
    {
        push_item(&mut out, json_of_record(&rs[i]));
        i = i + 1;
        proof {
            assert(jview_seq(out@) =~= records_jv(rs@.subrange(0, i as int)));
        }
    }
    proof {
        assert(rs@.subrange(0, rs@.len() as int) =~= rs@);
    }
    Json::Arr(out)
}

// ------------------------------------------------------------------
// Writing the loader configuration
// ------------------------------------------------------------------

pub open spec fn strs_jv(ds: Seq<Seq<char>>) -> Seq<JsonV> {
    ds.map_values(|s: Seq<char>| JsonV::Str(s))
}

pub open spec fn paths_members(ps: Seq<(Seq<char>, Seq<char>)>) -> Seq<(Seq<char>, JsonV)> {
    ps.map_values(|p: (Seq<char>, Seq<char>)| (p.0, JsonV::Str(p.1)))
}

pub open spec fn shim_member_jv(e: (Seq<char>, Seq<Seq<char>>, Option<Seq<char>>)) -> (
    Seq<char>,
    JsonV,
) {
    (
        e.0,
        JsonV::Obj(
            seq![("deps"@, JsonV::Arr(strs_jv(e.1)))] + match e.2 {
                Some(x) => seq![("exports"@, JsonV::Str(x))],
                None => Seq::<(Seq<char>, JsonV)>::empty(),
            },
        ),
    )
}

pub open spec fn shim_members(ss: Seq<(Seq<char>, Seq<Seq<char>>, Option<Seq<char>>)>) -> Seq<
    (Seq<char>, JsonV),
> {
    ss.map_values(|e: (Seq<char>, Seq<Seq<char>>, Option<Seq<char>>)| shim_member_jv(e))
}

/// The document that a configuration snapshot is written as.
pub open spec fn config_jv(
    base: Seq<char>,
    deps: Seq<Seq<char>>,
    map: JsonV,
    config: JsonV,
    paths: Seq<(Seq<char>, Seq<char>)>,
    shim: Seq<(Seq<char>, Seq<Seq<char>>, Option<Seq<char>>)>,
) -> JsonV {
    JsonV::Obj(
        seq![
            ("baseUrl"@, JsonV::Str(base)),
            ("deps"@, JsonV::Arr(strs_jv(deps))),
            ("map"@, map),
            ("config"@, config),
            ("paths"@, JsonV::Obj(paths_members(paths))),
            ("shim"@, JsonV::Obj(shim_members(shim))),
        ],
    )
}

pub open spec fn client_config_jv(c: ClientLoaderConfig) -> JsonV {
    config_jv(
        c.base_url@,
        strs_view(c.deps@),
        jview(c.map),
        jview(c.config),
        paths_view(c.paths@),
        shims_view(c.shim@),
    )
}

/// A string list as a JSON array of strings.
pub fn json_of_strs(ds: &Vec<String>) -> (r: Json)
    ensures
        jview(r) == JsonV::Arr(strs_jv(strs_view(ds@))),
{
    let mut out: Vec<Json> = Vec::new();
    let mut i: usize = 0;
    proof {
        assert(jview_seq(out@) =~= strs_jv(strs_view(ds@.subrange(0, 0))));
    }
    while i < ds.len()
        invariant
            0 <= i <= ds@.len(),
            jview_seq(out@) == strs_jv(strs_view(ds@.subrange(0, i as int))),
        decreases ds@.len() - i,
    {
        push_item(&mut out, Json::Str(str_to_chars(ds[i].as_str())));
        i = i + 1;
        proof {
            assert(jview_seq(out@) =~= strs_jv(strs_view(ds@.subrange(0, i as int))));
        }
    }
    proof {
        assert(ds@.subrange(0, ds@.len() as int) =~= ds@);
    }
    Json::Arr(out)
}

/// The path mappings as a JSON object.
pub fn json_of_paths(ps: &Vec<PathMapping>) -> (r: Json)
    ensures
        jview(r) == JsonV::Obj(paths_members(paths_view(ps@))),
{
    let mut ms: Vec<(Vec<char>, Json)> = Vec::new();
    let mut i: usize = 0;
    proof {
        assert(jview_members(ms@) =~= paths_members(paths_view(ps@.subrange(0, 0))));
    }
    while i < ps.len()
        invariant
            0 <= i <= ps@.len(),
            jview_members(ms@) == paths_members(paths_view(ps@.subrange(0, i as int))),
        decreases ps@.len() - i,
    {
        push_member(&mut ms, ps[i].id.as_str(), Json::Str(str_to_chars(ps[i].path.as_str())));
        i = i + 1;
        proof {
            assert(jview_members(ms@) =~= paths_members(paths_view(ps@.subrange(0, i as int))));
        }
    }
    proof {
        assert(ps@.subrange(0, ps@.len() as int) =~= ps@);
    }
    Json::Obj(ms)
}

/// One shim entry as a JSON object member.
pub fn json_of_shim(e: &ShimEntry) -> (r: Json)
    ensures
        jview(r) == shim_member_jv((e.id@, strs_view(e.deps@), opt_str_view(e.exports))).1,
{
    let mut ms: Vec<(Vec<char>, Json)> = Vec::new();
    proof {
        assert(jview_members(ms@) =~= Seq::<(Seq<char>, JsonV)>::empty());
    }
    push_member(&mut ms, "deps", json_of_strs(&e.deps));
    match &e.exports {
        Some(x) => {
            push_member(&mut ms, "exports", Json::Str(str_to_chars(x.as_str())));
            proof {
                assert(jview_members(ms@) =~= shim_member_jv(
                    (e.id@, strs_view(e.deps@), opt_str_view(e.exports)),
                ).1->Obj_0);
            }
        },
        None => {
            proof {
                assert(jview_members(ms@) =~= shim_member_jv(
                    (e.id@, strs_view(e.deps@), opt_str_view(e.exports)),
                ).1->Obj_0);
            }
        },
    }
    Json::Obj(ms)
}

/// The shim list as a JSON object.
pub fn json_of_shims(ss: &Vec<ShimEntry>) -> (r: Json)
    ensures
        jview(r) == JsonV::Obj(shim_members(shims_view(ss@))),
{
    let mut ms: Vec<(Vec<char>, Json)> = Vec::new();
    let mut i: usize = 0;
    proof {
        assert(jview_members(ms@) =~= shim_members(shims_view(ss@.subrange(0, 0))));
    }
    while i < ss.len()
        invariant
            0 <= i <= ss@.len(),
            jview_members(ms@) == shim_members(shims_view(ss@.subrange(0, i as int))),
        decreases ss@.len() - i,
    {
        push_member(&mut ms, ss[i].id.as_str(), json_of_shim(&ss[i]));
        i = i + 1;
        proof {
            assert(jview_members(ms@) =~= shim_members(shims_view(ss@.subrange(0, i as int))));
        }
    }
    proof {
        assert(ss@.subrange(0, ss@.len() as int) =~= ss@);
    }
    Json::Obj(ms)
}

/// The configuration snapshot as a document.
pub fn json_of_client_config(c: &ClientLoaderConfig) -> (r: Json)
    ensures
        jview(r) == client_config_jv(*c),
{
    let mut ms: Vec<(Vec<char>, Json)> = Vec::new();
    proof {
        assert(jview_members(ms@) =~= Seq::<(Seq<char>, JsonV)>::empty());
    }
    push_member(&mut ms, "baseUrl", Json::Str(str_to_chars(c.base_url.as_str())));
    push_member(&mut ms, "deps", json_of_strs(&c.deps));
    push_member(&mut ms, "map", crate::client_config::clone_json(&c.map));
    push_member(&mut ms, "config", crate::client_config::clone_json(&c.config));
    push_member(&mut ms, "paths", json_of_paths(&c.paths));
    push_member(&mut ms, "shim", json_of_shims(&c.shim));
    proof {
        assert(jview_members(ms@) =~= client_config_jv(*c)->Obj_0);
    }
    Json::Obj(ms)
}

// ------------------------------------------------------------------
// Writing the build configuration
// ------------------------------------------------------------------

pub open spec fn module_jv(m: (Seq<char>, Seq<Seq<char>>)) -> JsonV {
    JsonV::Obj(seq![("name"@, JsonV::Str(m.0)), ("includes"@, JsonV::Arr(strs_jv(m.1)))])
}

pub open spec fn modules_jv(ms: Seq<(Seq<char>, Seq<Seq<char>>)>) -> Seq<JsonV> {
    ms.map_values(|m: (Seq<char>, Seq<Seq<char>>)| module_jv(m))
}

/// The document that a build configuration is written as.
pub open spec fn build_jv(d: DerivedBuildConfig) -> JsonV {
    JsonV::Obj(
        seq![
            ("deps"@, JsonV::Arr(strs_jv(strs_view(d.deps@)))),
            ("map"@, jview(d.map)),
            ("config"@, jview(d.config)),
            ("paths"@, JsonV::Obj(paths_members(paths_view(d.paths@)))),
            ("shim"@, JsonV::Obj(shim_members(shims_view(d.shim@)))),
            ("modules"@, JsonV::Arr(modules_jv(modules_view(d.modules@)))),
        ],
    )
}

/// One bundle group as a document.
pub fn json_of_module(m: &Module) -> (r: Json)
    ensures
        jview(r) == module_jv((m.name@, strs_view(m.includes@))),
{
    let mut ms: Vec<(Vec<char>, Json)> = Vec::new();
    proof {
        assert(jview_members(ms@) =~= Seq::<(Seq<char>, JsonV)>::empty());
    }
    push_member(&mut ms, "name", Json::Str(str_to_chars(m.name.as_str())));
    push_member(&mut ms, "includes", json_of_strs(&m.includes));
    proof {
        assert(jview_members(ms@) =~= module_jv((m.name@, strs_view(m.includes@)))->Obj_0);
    }
    Json::Obj(ms)
}

/// The grouped module list as a JSON array, in rule order.
pub fn json_of_modules(ms: &Vec<Module>) -> (r: Json)
    ensures
        jview(r) == JsonV::Arr(modules_jv(modules_view(ms@))),
{
    let mut out: Vec<Json> = Vec::new();
    let mut i: usize = 0;
    proof {
        assert(jview_seq(out@) =~= modules_jv(modules_view(ms@.subrange(0, 0))));
    }
    while i < ms.len()
        invariant
            0 <= i <= ms@.len(),
            jview_seq(out@) == modules_jv(modules_view(ms@.subrange(0, i as int))),
        decreases ms@.len() - i,
    {
        push_item(&mut out, json_of_module(&ms[i]));
        i = i + 1;
        proof {
            assert(jview_seq(out@) =~= modules_jv(modules_view(ms@.subrange(0, i as int))));
        }
    }
    proof {
        assert(ms@.subrange(0, ms@.len() as int) =~= ms@);
    }
    Json::Arr(out)
}

/// The build configuration as a document.
pub fn json_of_build(d: &DerivedBuildConfig) -> (r: Json)
    ensures
        jview(r) == build_jv(*d),
{
    let mut ms: Vec<(Vec<char>, Json)> = Vec::new();
    proof {
        assert(jview_members(ms@) =~= Seq::<(Seq<char>, JsonV)>::empty());
    }
    push_member(&mut ms, "deps", json_of_strs(&d.deps));
    push_member(&mut ms, "map", crate::client_config::clone_json(&d.map));
    push_member(&mut ms, "config", crate::client_config::clone_json(&d.config));
    push_member(&mut ms, "paths", json_of_paths(&d.paths));
    push_member(&mut ms, "shim", json_of_shims(&d.shim));
    push_member(&mut ms, "modules", json_of_modules(&d.modules));
    proof {
        assert(jview_members(ms@) =~= build_jv(*d)->Obj_0);
    }
    Json::Obj(ms)
}


// ------------------------------------------------------------------
// Reading a posted loader configuration
// ------------------------------------------------------------------

/// The string items of an array; an item that is not a string makes the whole
/// list mistyped.
pub open spec fn str_items(items: Seq<JsonV>) -> Option<Seq<Seq<char>>>
    decreases items.len(),
{
    if items.len() == 0 {
        Some(Seq::empty())
    } else {
        match (items[0], str_items(items.subrange(1, items.len() as int))) {
            (JsonV::Str(s), Some(rest)) => Some(seq![s] + rest),
            _ => None,
        }
    }
}

pub open spec fn cfg_field(v: JsonV, name: Seq<char>) -> Option<JsonV> {
    match v {
        JsonV::Obj(ms) => jget(ms, name),
        _ => None,
    }
}

/// The posted `baseUrl`: empty when absent, mistyped unless a string.
pub open spec fn cfg_base_url(v: JsonV) -> Option<Seq<char>> {
    match cfg_field(v, "baseUrl"@) {
        Some(x) => match x {
            JsonV::Str(s) => Some(s),
            _ => None,
        },
        None => Some(Seq::empty()),
    }
}

/// The posted `deps`: empty when absent, mistyped unless an array of strings.
pub open spec fn cfg_deps(v: JsonV) -> Option<Seq<Seq<char>>> {
    match cfg_field(v, "deps"@) {
        Some(x) => match x {
            JsonV::Arr(items) => str_items(items),
            _ => None,
        },
        None => Some(Seq::empty()),
    }
}

/// The posted `map` (or `config`), carried verbatim; an empty object when
/// absent. Any document is a valid value here.
pub open spec fn cfg_json_field(v: JsonV, name: Seq<char>) -> JsonV {
    match cfg_field(v, name) {
        Some(x) => x,
        None => JsonV::Obj(Seq::empty()),
    }
}

/// The members of a posted `paths` object; a value that is not a string makes
/// the mapping mistyped.
pub open spec fn path_pairs(ms: Seq<(Seq<char>, JsonV)>) -> Option<Seq<(Seq<char>, Seq<char>)>>
    decreases ms.len(),
{
    if ms.len() == 0 {
        Some(Seq::empty())
    } else {
        match (ms[0].1, path_pairs(ms.subrange(1, ms.len() as int))) {
            (JsonV::Str(s), Some(rest)) => Some(seq![(ms[0].0, s)] + rest),
            _ => None,
        }
    }
}

/// The posted `paths`: empty when absent, mistyped unless an object of
/// strings.
pub open spec fn cfg_paths(v: JsonV) -> Option<Seq<(Seq<char>, Seq<char>)>> {
    match cfg_field(v, "paths"@) {
        Some(x) => match x {
            JsonV::Obj(ms) => path_pairs(ms),
            _ => None,
        },
        None => Some(Seq::empty()),
    }
}

/// One posted shim member: its value must be an object, its `deps` an array
/// of strings when present, its `exports` a string when present.
pub open spec fn shim_of(id: Seq<char>, v: JsonV) -> Option<
    (Seq<char>, Seq<Seq<char>>, Option<Seq<char>>),
> {
    match v {
        JsonV::Obj(ms) => {
            let deps = match jget(ms, "deps"@) {
                Some(x) => match x {
                    JsonV::Arr(items) => str_items(items),
                    _ => None,
                },
                None => Some(Seq::empty()),
            };
            let exports = match jget(ms, "exports"@) {
                Some(x) => match x {
                    JsonV::Str(e) => Some(Some(e)),
                    _ => None,
                },
                None => Some(None),
            };
            match (deps, exports) {
                (Some(d), Some(e)) => Some((id, d, e)),
                _ => None,
            }
        },
        _ => None,
    }
}

pub open spec fn shim_list(ms: Seq<(Seq<char>, JsonV)>) -> Option<
    Seq<(Seq<char>, Seq<Seq<char>>, Option<Seq<char>>)>,
>
    decreases ms.len(),
{
    if ms.len() == 0 {
        Some(Seq::empty())
    } else {
        match (shim_of(ms[0].0, ms[0].1), shim_list(ms.subrange(1, ms.len() as int))) {
            (Some(e), Some(rest)) => Some(seq![e] + rest),
            _ => None,
        }
    }
}

/// The posted `shim`: empty when absent, mistyped unless an object of valid
/// shim members.
pub open spec fn cfg_shim(v: JsonV) -> Option<
    Seq<(Seq<char>, Seq<Seq<char>>, Option<Seq<char>>)>,
> {
    match cfg_field(v, "shim"@) {
        Some(x) => match x {
            JsonV::Obj(ms) => shim_list(ms),
            _ => None,
        },
        None => Some(Seq::empty()),
    }
}

/// Whether a posted document decodes as a loader configuration at all: it
/// must be an object and none of its recognized fields may be mistyped. A
/// document that is well-formed JSON but fails this is a decode error, not a
/// configuration.
pub open spec fn config_decodes(v: JsonV) -> bool {
    &&& v is Obj
    &&& cfg_base_url(v) is Some
    &&& cfg_deps(v) is Some
    &&& cfg_paths(v) is Some
    &&& cfg_shim(v) is Some
}

/// Read the string items of a parsed array; a non-string item rejects the
/// list.
fn strs_of_items(items: &Vec<Json>) -> (r: Option<Vec<String>>)
    ensures
        match r {
            Some(v) => str_items(jview_seq(items@)) == Some(strs_view(v@)),
            None => str_items(jview_seq(items@)) is None,
        },
{
    let ghost w = jview_seq(items@);
    let mut out: Vec<String> = Vec::new();
    let mut i: usize = 0;
    proof {
        lemma_jview_seq_len(items@);
        assert(w.subrange(0, w.len() as int) =~= w);
        assert(strs_view(out@) =~= Seq::<Seq<char>>::empty());
        assert(match str_items(w) {
            Some(all) => str_items(w) == Some(strs_view(out@) + all),
            None => true,
        }) by {
            if str_items(w) is Some {
                assert(strs_view(out@) + str_items(w)->0 =~= str_items(w)->0);
            }
        }
    }
    while i < items.len()
        invariant
            0 <= i <= items@.len(),
            w == jview_seq(items@),
            w.len() == items@.len(),
            match str_items(w.subrange(i as int, w.len() as int)) {
                Some(rest) => str_items(w) == Some(strs_view(out@) + rest),
                None => str_items(w) is None,
            },
        decreases items@.len() - i,
    {
        let ghost suf = w.subrange(i as int, w.len() as int);
        proof {
            lemma_jview_seq_index(items@, i as int);
            assert(suf[0] == w[i as int]);
            assert(suf.subrange(1, suf.len() as int) =~= w.subrange(i as int + 1, w.len() as int));
        }
        match &items[i] {
            Json::Str(s) => {
                let ghost before = strs_view(out@);
                out.push(chars_to_string(s));
                proof {
                    assert(strs_view(out@) =~= before.push(s@));
                    if str_items(w.subrange(i as int + 1, w.len() as int)) is Some {
                        let rest = str_items(w.subrange(i as int + 1, w.len() as int))->0;
                        assert(before + (seq![s@] + rest) =~= strs_view(out@) + rest);
                    }
                }
            },
            _ => {
                return None;
            },
        }
        i = i + 1;
    }
    proof {
        assert(w.subrange(i as int, w.len() as int) =~= Seq::<JsonV>::empty());
        assert(strs_view(out@) + Seq::<Seq<char>>::empty() =~= strs_view(out@));
    }
    Some(out)
}

/// Read the path mappings out of a parsed object; a non-string value rejects
/// the mapping.
fn paths_of_members(ms: &Vec<(Vec<char>, Json)>) -> (r: Option<Vec<PathMapping>>)
    ensures
        match r {
            Some(v) => path_pairs(jview_members(ms@)) == Some(paths_view(v@)),
            None => path_pairs(jview_members(ms@)) is None,
        },
{
    let ghost w = jview_members(ms@);
    let mut out: Vec<PathMapping> = Vec::new();
    let mut i: usize = 0;
    proof {
        lemma_jview_members_len(ms@);
        assert(w.subrange(0, w.len() as int) =~= w);
        if path_pairs(w) is Some {
            assert(paths_view(out@) + path_pairs(w)->0 =~= path_pairs(w)->0);
        }
    }
    while i < ms.len()
        invariant
            0 <= i <= ms@.len(),
            w == jview_members(ms@),
            w.len() == ms@.len(),
            match path_pairs(w.subrange(i as int, w.len() as int)) {
                Some(rest) => path_pairs(w) == Some(paths_view(out@) + rest),
                None => path_pairs(w) is None,
            },
        decreases ms@.len() - i,
    {
        let ghost suf = w.subrange(i as int, w.len() as int);
        proof {
            lemma_jview_members_index(ms@, i as int);
            assert(suf[0] == w[i as int]);
            assert(suf.subrange(1, suf.len() as int) =~= w.subrange(i as int + 1, w.len() as int));
        }
        match &ms[i].1 {
            Json::Str(s) => {
                let ghost before = paths_view(out@);
                out.push(PathMapping { id: chars_to_string(&ms[i].0), path: chars_to_string(s) });
                proof {
                    assert(paths_view(out@) =~= before.push((w[i as int].0, s@)));
                    if path_pairs(w.subrange(i as int + 1, w.len() as int)) is Some {
                        let rest = path_pairs(w.subrange(i as int + 1, w.len() as int))->0;
                        assert(before + (seq![(w[i as int].0, s@)] + rest) =~= paths_view(out@)
                            + rest);
                    }
                }
            },
            _ => {
                return None;
            },
        }
        i = i + 1;
    }
    proof {
        assert(w.subrange(i as int, w.len() as int) =~= Seq::<(Seq<char>, JsonV)>::empty());
        assert(paths_view(out@) + Seq::<(Seq<char>, Seq<char>)>::empty() =~= paths_view(out@));
    }
    Some(out)
}

/// Read one shim member out of a parsed object member; a mistyped member
/// rejects the whole shim.
fn shim_of_member(key: &Vec<char>, v: &Json) -> (r: Option<ShimEntry>)
    ensures
        match r {
            Some(e) => shim_of(key@, jview(*v)) == Some(
                (e.id@, strs_view(e.deps@), opt_str_view(e.exports)),
            ),
            None => shim_of(key@, jview(*v)) is None,
        },
{
    let id = chars_to_string(key);
    match v {
        Json::Obj(ms) => {
            let kd = str_to_chars("deps");
            let deps = match get_member(ms, &kd) {
                Some(Json::Arr(items)) => match strs_of_items(items) {
                    Some(d) => d,
                    None => {
                        return None;
                    },
                },
                Some(_) => {
                    return None;
                },
                None => Vec::new(),
            };
            let ke = str_to_chars("exports");
            let exports = match get_member(ms, &ke) {
                Some(Json::Str(e)) => Some(chars_to_string(e)),
                Some(_) => {
                    return None;
                },
                None => None,
            };
            proof {
                assert(strs_view(Seq::<String>::empty()) =~= Seq::<Seq<char>>::empty());
            }
            Some(ShimEntry { id, deps, exports })
        },
        _ => None,
    }
}

/// Read the shim list out of a parsed object; a mistyped member rejects it.
fn shims_of_members(ms: &Vec<(Vec<char>, Json)>) -> (r: Option<Vec<ShimEntry>>)
    ensures
        match r {
            Some(v) => shim_list(jview_members(ms@)) == Some(shims_view(v@)),
            None => shim_list(jview_members(ms@)) is None,
        },
{
    let ghost w = jview_members(ms@);
    let mut out: Vec<ShimEntry> = Vec::new();
    let mut i: usize = 0;
    proof {
        lemma_jview_members_len(ms@);
        assert(w.subrange(0, w.len() as int) =~= w);
        if shim_list(w) is Some {
            assert(shims_view(out@) + shim_list(w)->0 =~= shim_list(w)->0);
        }
    }
    while i < ms.len()
        invariant
            0 <= i <= ms@.len(),
            w == jview_members(ms@),
            w.len() == ms@.len(),
            match shim_list(w.subrange(i as int, w.len() as int)) {
                Some(rest) => shim_list(w) == Some(shims_view(out@) + rest),
                None => shim_list(w) is None,
            },
        decreases ms@.len() - i,
    {
        let ghost suf = w.subrange(i as int, w.len() as int);
        proof {
            lemma_jview_members_index(ms@, i as int);
            assert(suf[0] == w[i as int]);
            assert(suf.subrange(1, suf.len() as int) =~= w.subrange(i as int + 1, w.len() as int));
        }
        match shim_of_member(&ms[i].0, &ms[i].1) {
            Some(e) => {
                let ghost before = shims_view(out@);
                let ghost ev = (e.id@, strs_view(e.deps@), opt_str_view(e.exports));
                out.push(e);
                proof {
                    assert(shims_view(out@) =~= before.push(ev));
                    if shim_list(w.subrange(i as int + 1, w.len() as int)) is Some {
                        let rest = shim_list(w.subrange(i as int + 1, w.len() as int))->0;
                        assert(before + (seq![ev] + rest) =~= shims_view(out@) + rest);
                    }
                }
            },
            None => {
                return None;
            },
        }
        i = i + 1;
    }
    proof {
        assert(w.subrange(i as int, w.len() as int) =~= Seq::<(Seq<char>, JsonV)>::empty());
        assert(shims_view(out@) + Seq::<(Seq<char>, Seq<Seq<char>>, Option<Seq<char>>)>::empty()
            =~= shims_view(out@));
    }
    Some(out)
}

/// Read a posted loader-configuration snapshot out of a parsed document. Only
/// an object whose recognized fields are well typed decodes; absent fields
/// take their empty defaults; anything else is a decode error and yields no
/// configuration.
pub fn client_config_of_json(j: &Json) -> (r: Option<ClientLoaderConfig>)
    ensures
        match r {
            Some(c) => {
                &&& config_decodes(jview(*j))
                &&& c.base_url@ == cfg_base_url(jview(*j))->0
                &&& strs_view(c.deps@) == cfg_deps(jview(*j))->0
                &&& jview(c.map) == cfg_json_field(jview(*j), "map"@)
                &&& jview(c.config) == cfg_json_field(jview(*j), "config"@)
                &&& paths_view(c.paths@) == cfg_paths(jview(*j))->0
                &&& shims_view(c.shim@) == cfg_shim(jview(*j))->0
            },
            None => !config_decodes(jview(*j)),
        },
{
    let mut out = ClientLoaderConfig::new();
    proof {
        assert(strs_view(Seq::<String>::empty()) =~= Seq::<Seq<char>>::empty());
        assert(paths_view(Seq::<PathMapping>::empty()) =~= Seq::<(Seq<char>, Seq<char>)>::empty());
        assert(shims_view(Seq::<ShimEntry>::empty()) =~= Seq::<
            (Seq<char>, Seq<Seq<char>>, Option<Seq<char>>),
        >::empty());
    }
    match j {
        Json::Obj(members) => {
            let kb = str_to_chars("baseUrl");
            match get_member(members, &kb) {
                Some(Json::Str(s)) => {
                    out.base_url = chars_to_string(s);
                },
                Some(_) => {
                    return None;
                },
                None => {},
            }
            let kd = str_to_chars("deps");
            match get_member(members, &kd) {
                Some(Json::Arr(items)) => match strs_of_items(items) {
                    Some(d) => {
                        out.deps = d;
                    },
                    None => {
                        return None;
                    },
                },
                Some(_) => {
                    return None;
                },
                None => {},
            }
            let km = str_to_chars("map");
            match get_member(members, &km) {
                Some(m) => {
                    out.map = crate::client_config::clone_json(m);
                },
                None => {},
            }
            let kc = str_to_chars("config");
            match get_member(members, &kc) {
                Some(m) => {
                    out.config = crate::client_config::clone_json(m);
                },
                None => {},
            }
            let kp = str_to_chars("paths");
            match get_member(members, &kp) {
                Some(Json::Obj(pm)) => match paths_of_members(pm) {
                    Some(p) => {
                        out.paths = p;
                    },
                    None => {
                        return None;
                    },
                },
                Some(_) => {
                    return None;
                },
                None => {},
            }
            let ks = str_to_chars("shim");
            match get_member(members, &ks) {
                Some(Json::Obj(sm)) => match shims_of_members(sm) {
                    Some(s) => {
                        out.shim = s;
                    },
                    None => {
                        return None;
                    },
                },
                Some(_) => {
                    return None;
                },
                None => {},
            }
            Some(out)
        },
        _ => None,
    }
}

} // verus!
