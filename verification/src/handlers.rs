//! The diagnostic and configuration endpoints: what each one answers, as a
//! pure function of the shared state handed in by the host program.

use vstd::prelude::*;
use vstd::utf8::{valid_utf8, decode_utf8};
use crate::json::{Json, JsonV, jview, jview_members, jget, render, json_of, parse_json,
    push_member, to_text};
use crate::text::{str_to_chars, chars_to_string, matches_at, extend_chars};
use crate::usage::ModuleData;
use crate::client_config::ClientLoaderConfig;
use crate::bundle::{BundlePolicy, Module, gather_state, gen_modules, filtered_records, strs_view,
    modules_view};
use crate::wire::{records_jv, client_config_jv, build_jv, json_of_records, json_of_client_config,
    json_of_build, client_config_of_json, config_decodes, cfg_base_url, cfg_deps, cfg_json_field,
    cfg_paths, cfg_shim, paths_view, shims_view};
use crate::proxy::{ProxyBodyError, decode_proxy_body, BODY_CAP};

verus! {

// ------------------------------------------------------------------
// Dump endpoints
// ------------------------------------------------------------------

/// The usage-dump body: a pretty JSON array of the recorded entries, in
/// accumulation order.
pub fn serve_req_dump_json(items: &Vec<ModuleData>) -> (r: String)
    ensures
        r@ == render(JsonV::Arr(records_jv(items@)), 0),
{
    let j = json_of_records(items);
    to_text(&j)
}

/// The configuration-dump body: pretty JSON of the current snapshot.
pub fn serve_config_dump_json(config: &ClientLoaderConfig) -> (r: String)
    ensures
        r@ == render(client_config_jv(*config), 0),
{
    let j = json_of_client_config(config);
    to_text(&j)
}

/// A full seed for offline replay: the configuration snapshot together with
/// the recorded entries.
pub struct SeedData {
    pub client_config: ClientLoaderConfig,
    pub module_items: Vec<ModuleData>,
}

/// The seed document: the configuration snapshot and the recorded entries,
/// together, for offline replay.
pub open spec fn seed_jv(c: ClientLoaderConfig, rs: Seq<ModuleData>) -> JsonV {
    JsonV::Obj(
        seq![
            ("client_config"@, client_config_jv(c)),
            ("module_items"@, JsonV::Arr(records_jv(rs))),
        ],
    )
}

/// The seed-dump body.
pub fn serve_seed_dump_json(seed: &SeedData) -> (r: String)
    ensures
        r@ == render(seed_jv(seed.client_config, seed.module_items@), 0),
{
    let mut ms: Vec<(Vec<char>, Json)> = Vec::new();
    proof {
        assert(jview_members(ms@) =~= Seq::<(Seq<char>, JsonV)>::empty());
    }
    push_member(&mut ms, "client_config", json_of_client_config(&seed.client_config));
    push_member(&mut ms, "module_items", json_of_records(&seed.module_items));
    proof {
        assert(jview_members(ms@) =~= seed_jv(seed.client_config, seed.module_items@)->Obj_0);
    }
    to_text(&Json::Obj(ms))
}

// ------------------------------------------------------------------
// Generation endpoints
// ------------------------------------------------------------------

/// The stripped form of every path mapping.
pub open spec fn stripped_pairs(ps: Seq<crate::client_config::PathMapping>) -> Seq<
    (Seq<char>, Seq<char>),
> {
    ps.map_values(
        |p: crate::client_config::PathMapping| (p.id@, crate::bundle::strip_path(p.path@)),
    )
}

/// The normalized form of every shim entry.
pub open spec fn fixed_shim_views(ss: Seq<crate::client_config::ShimEntry>) -> Seq<
    (Seq<char>, Seq<Seq<char>>, Option<Seq<char>>),
> {
    ss.map_values(
        |s: crate::client_config::ShimEntry|
            (
                s.id@,
                strs_view(s.deps@),
                Some(
                    match s.exports {
                        Some(e) => e@,
                        None => s.id@,
                    },
                ),
            ),
    )
}

/// The document that a successful generation answers with.
pub open spec fn generated_build_jv(
    rs: Seq<ModuleData>,
    c: ClientLoaderConfig,
    pol: BundlePolicy,
) -> JsonV {
    JsonV::Obj(
        seq![
            ("deps"@, JsonV::Arr(crate::wire::strs_jv(strs_view(c.deps@)))),
            ("map"@, jview(c.map)),
            ("config"@, jview(c.config)),
            ("paths"@, JsonV::Obj(crate::wire::paths_members(stripped_pairs(c.paths@)))),
            ("shim"@, JsonV::Obj(crate::wire::shim_members(fixed_shim_views(c.shim@)))),
            (
                "modules"@,
                JsonV::Arr(
                    crate::wire::modules_jv(gen_modules(pol.groups@, filtered_records(pol, rs))),
                ),
            ),
        ],
    )
}

/// The structured error document for a failed generation.
pub open spec fn error_jv(msg: Seq<char>) -> JsonV {
    JsonV::Obj(seq![("message"@, JsonV::Str(msg))])
}

/// The build endpoint: status 200 with the pretty build configuration, or
/// status 500 with a JSON error object carrying a `message` field when no
/// policy is configured.
pub fn serve_build_json(
    records: &Vec<ModuleData>,
    config: &ClientLoaderConfig,
    policy: Option<&BundlePolicy>,
) -> (r: (u16, String))
    ensures
        policy is Some ==> r.0 == 200 && r.1@ == render(
            generated_build_jv(records@, *config, *policy->0),
            0,
        ),
        policy is None ==> r.0 == 500 && r.1@ == render(
            error_jv("bundle policy is not configured"@),
            0,
        ),
{
    match gather_state(records, config, policy) {
        Ok(p) => {
            let (derived, _modules) = p;
            proof {
                assert(crate::wire::paths_members(paths_view(derived.paths@))
                    =~= generated_build_jv(records@, *config, *policy->0)->Obj_0[3].1->Obj_0);
                assert(crate::wire::shim_members(shims_view(derived.shim@))
                    =~= generated_build_jv(records@, *config, *policy->0)->Obj_0[4].1->Obj_0);
                assert(build_jv(derived) =~= generated_build_jv(records@, *config, *policy->0));
            }
            let body = to_text(&json_of_build(&derived));
            (200, body)
        },
        Err(e) => {
            let mut ms: Vec<(Vec<char>, Json)> = Vec::new();
            proof {
                assert(jview_members(ms@) =~= Seq::<(Seq<char>, JsonV)>::empty());
            }
            push_member(&mut ms, "message", Json::Str(str_to_chars(e.as_str())));
            proof {
                assert(jview_members(ms@) =~= error_jv(e@)->Obj_0);
            }
            let body = to_text(&Json::Obj(ms));
            (500, body)
        },
    }
}

/// Generation is deterministic: two build requests whose inputs agree value
/// for value — the same records, a configuration whose fields say the same
/// thing, the same policy — produce byte-identical body text.
pub proof fn lemma_build_output_deterministic(
    rs1: Seq<ModuleData>,
    rs2: Seq<ModuleData>,
    c1: ClientLoaderConfig,
    c2: ClientLoaderConfig,
    pol: BundlePolicy,
)
    requires
        rs1.len() == rs2.len(),
        forall|i: int| 0 <= i < rs1.len() ==> crate::usage::md_eq(rs1[i], rs2[i]),
        c1.base_url@ == c2.base_url@,
        strs_view(c1.deps@) == strs_view(c2.deps@),
        jview(c1.map) == jview(c2.map),
        jview(c1.config) == jview(c2.config),
        paths_view(c1.paths@) == paths_view(c2.paths@),
        shims_view(c1.shim@) == shims_view(c2.shim@),
    ensures
        render(generated_build_jv(rs1, c1, pol), 0) == render(generated_build_jv(rs2, c2, pol), 0),
{
    crate::bundle::lemma_generation_deterministic(
        rs1,
        rs2,
        crate::bundle::policy_blacklist(pol),
        pol.groups@,
    );
    lemma_filter_views(rs1, rs2, crate::bundle::policy_blacklist(pol));
    crate::bundle::lemma_generation_deterministic(
        crate::bundle::filter_bl(rs1, crate::bundle::policy_blacklist(pol)),
        crate::bundle::filter_bl(rs2, crate::bundle::policy_blacklist(pol)),
        crate::bundle::policy_blacklist(pol),
        pol.groups@,
    );
    assert(c1.paths@.len() == c2.paths@.len()) by {
        assert(paths_view(c1.paths@).len() == c1.paths@.len());
        assert(paths_view(c2.paths@).len() == c2.paths@.len());
    }
    assert(stripped_pairs(c1.paths@) =~= stripped_pairs(c2.paths@)) by {
        assert forall|k: int| 0 <= k < c1.paths@.len() implies #[trigger] stripped_pairs(
            c1.paths@,
        )[k] == stripped_pairs(c2.paths@)[k] by {
            assert(paths_view(c1.paths@)[k] == (c1.paths@[k].id@, c1.paths@[k].path@));
            assert(paths_view(c2.paths@)[k] == (c2.paths@[k].id@, c2.paths@[k].path@));
            assert(paths_view(c1.paths@)[k] == paths_view(c2.paths@)[k]);
            assert(c1.paths@[k].id@ == c2.paths@[k].id@);
            assert(c1.paths@[k].path@ == c2.paths@[k].path@);
            assert(stripped_pairs(c1.paths@)[k] == (
                c1.paths@[k].id@,
                crate::bundle::strip_path(c1.paths@[k].path@),
            ));
            assert(stripped_pairs(c2.paths@)[k] == (
                c2.paths@[k].id@,
                crate::bundle::strip_path(c2.paths@[k].path@),
            ));
        }
    }
    assert(c1.shim@.len() == c2.shim@.len()) by {
        assert(shims_view(c1.shim@).len() == c1.shim@.len());
        assert(shims_view(c2.shim@).len() == c2.shim@.len());
    }
    assert(fixed_shim_views(c1.shim@) =~= fixed_shim_views(c2.shim@)) by {
        assert forall|k: int| 0 <= k < c1.shim@.len() implies #[trigger] fixed_shim_views(
            c1.shim@,
        )[k] == fixed_shim_views(c2.shim@)[k] by {
            assert(shims_view(c1.shim@)[k] == (
                c1.shim@[k].id@,
                strs_view(c1.shim@[k].deps@),
                crate::wire::opt_str_view(c1.shim@[k].exports),
            ));
            assert(shims_view(c2.shim@)[k] == (
                c2.shim@[k].id@,
                strs_view(c2.shim@[k].deps@),
                crate::wire::opt_str_view(c2.shim@[k].exports),
            ));
            assert(shims_view(c1.shim@)[k] == shims_view(c2.shim@)[k]);
            assert(c1.shim@[k].id@ == c2.shim@[k].id@);
            assert(strs_view(c1.shim@[k].deps@) == strs_view(c2.shim@[k].deps@));
            assert(crate::wire::opt_str_view(c1.shim@[k].exports) == crate::wire::opt_str_view(
                c2.shim@[k].exports,
            ));
            assert(fixed_shim_views(c1.shim@)[k] == (
                c1.shim@[k].id@,
                strs_view(c1.shim@[k].deps@),
                Some(
                    match c1.shim@[k].exports {
                        Some(e) => e@,
                        None => c1.shim@[k].id@,
                    },
                ),
            ));
            assert(fixed_shim_views(c2.shim@)[k] == (
                c2.shim@[k].id@,
                strs_view(c2.shim@[k].deps@),
                Some(
                    match c2.shim@[k].exports {
                        Some(e) => e@,
                        None => c2.shim@[k].id@,
                    },
                ),
            ));
            assert(match c1.shim@[k].exports {
                Some(e) => Some(e@),
                None => None,
            } == match c2.shim@[k].exports {
                Some(e2) => Some(e2@),
                None => None::<Seq<char>>,
            });
        }
    }
    assert(generated_build_jv(rs1, c1, pol) =~= generated_build_jv(rs2, c2, pol));
}

/// Records that agree value for value survive a blacklist together.
proof fn lemma_filter_views(rs1: Seq<ModuleData>, rs2: Seq<ModuleData>, bl: Seq<Seq<char>>)
    requires
        rs1.len() == rs2.len(),
        forall|i: int| 0 <= i < rs1.len() ==> crate::usage::md_eq(rs1[i], rs2[i]),
    ensures
        crate::bundle::filter_bl(rs1, bl).len() == crate::bundle::filter_bl(rs2, bl).len(),
        forall|i: int|
            0 <= i < crate::bundle::filter_bl(rs1, bl).len() ==> crate::usage::md_eq(
                #[trigger] crate::bundle::filter_bl(rs1, bl)[i],
                crate::bundle::filter_bl(rs2, bl)[i],
            ),
    decreases rs1.len(),
{
    if rs1.len() > 0 {
        let t1 = rs1.subrange(1, rs1.len() as int);
        let t2 = rs2.subrange(1, rs2.len() as int);
        assert(forall|i: int|
            0 <= i < t1.len() ==> crate::usage::md_eq(t1[i], #[trigger] t2[i]));
        lemma_filter_views(t1, t2, bl);
        assert(crate::usage::md_eq(rs1[0], rs2[0]));
        assert(crate::bundle::in_ids(bl, rs1[0].id@) == crate::bundle::in_ids(bl, rs2[0].id@));
    }
}

/// The ids of one group, joined by commas.
pub open spec fn joined_ids(ids: Seq<Seq<char>>) -> Seq<char>
    decreases ids.len(),
{
    if ids.len() == 0 {
        Seq::empty()
    } else if ids.len() == 1 {
        ids[0]
    } else {
        ids[0] + ","@ + joined_ids(ids.subrange(1, ids.len() as int))
    }
}

pub proof fn lemma_joined_ids_push(s: Seq<Seq<char>>, x: Seq<char>)
    ensures
        joined_ids(s.push(x)) == if s.len() == 0 {
            x
        } else {
            joined_ids(s) + ","@ + x
        },
    decreases s.len(),
{
    let t = s.push(x);
    if s.len() == 0 {
        assert(t[0] == x);
        assert(joined_ids(t) =~= x);
    } else {
        assert(t[0] == s[0]);
        assert(t.subrange(1, t.len() as int) =~= s.subrange(1, s.len() as int).push(x));
        lemma_joined_ids_push(s.subrange(1, s.len() as int), x);
        if s.len() == 1 {
            assert(s.subrange(1, s.len() as int) =~= Seq::<Seq<char>>::empty());
        }
        assert(joined_ids(t) =~= joined_ids(s) + ","@ + x);
    }
}

/// The mixin modules switched on under one target: the members whose value is
/// `true`.
pub open spec fn true_keys(inner: Seq<(Seq<char>, JsonV)>) -> Seq<Seq<char>>
    decreases inner.len(),
{
    if inner.len() == 0 {
        Seq::empty()
    } else {
        let rest = true_keys(inner.subrange(1, inner.len() as int));
        if inner[0].1 == JsonV::Bool(true) {
            seq![inner[0].0] + rest
        } else {
            rest
        }
    }
}

/// The mixin modules of every target of a `mixins` object, in configuration
/// order.
pub open spec fn mixins_list(tms: Seq<(Seq<char>, JsonV)>) -> Seq<Seq<char>>
    decreases tms.len(),
{
    if tms.len() == 0 {
        Seq::empty()
    } else {
        (match tms[0].1 {
            JsonV::Obj(inner) => true_keys(inner),
            _ => Seq::empty(),
        }) + mixins_list(tms.subrange(1, tms.len() as int))
    }
}

/// The mixins observed in the loader configuration: the switched-on members
/// of its `mixins` object; none when the configuration has no such object.
pub open spec fn mixins_of(config: JsonV) -> Seq<Seq<char>> {
    match config {
        JsonV::Obj(ms) => match jget(ms, "mixins"@) {
            Some(JsonV::Obj(t)) => mixins_list(t),
            _ => Seq::empty(),
        },
        _ => Seq::empty(),
    }
}

/// The switched-on members of one target, executable form.
fn true_keys_of(inner: &Vec<(Vec<char>, Json)>) -> (r: Vec<String>)
    ensures
        strs_view(r@) == true_keys(jview_members(inner@)),
{
    let ghost w = jview_members(inner@);
    let mut out: Vec<String> = Vec::new();
    let mut i: usize = 0;
    proof {
        crate::json::lemma_jview_members_len(inner@);
        assert(w.subrange(0, w.len() as int) =~= w);
        assert(strs_view(out@) + true_keys(w) =~= true_keys(w));
    }
    while i < inner.len()
        invariant
            0 <= i <= inner@.len(),
            w == jview_members(inner@),
            w.len() == inner@.len(),
            true_keys(w) == strs_view(out@) + true_keys(w.subrange(i as int, w.len() as int)),
        decreases inner@.len() - i,
    {
        let ghost suf = w.subrange(i as int, w.len() as int);
        proof {
            crate::json::lemma_jview_members_index(inner@, i as int);
            assert(suf[0] == w[i as int]);
            assert(suf.subrange(1, suf.len() as int) =~= w.subrange(i as int + 1, w.len() as int));
        }
        match &inner[i].1 {
            Json::Bool(b) => {
                if *b {
                    let ghost before = strs_view(out@);
                    out.push(chars_to_string(&inner[i].0));
                    proof {
                        assert(strs_view(out@) =~= before.push(w[i as int].0));
                        assert(strs_view(out@) + true_keys(
                            w.subrange(i as int + 1, w.len() as int),
                        ) =~= true_keys(w));
                    }
                }
            },
            _ => {},
        }
        i = i + 1;
    }
    proof {
        assert(w.subrange(i as int, w.len() as int) =~= Seq::<(Seq<char>, JsonV)>::empty());
        assert(strs_view(out@) + Seq::<Seq<char>>::empty() =~= strs_view(out@));
    }
    out
}

/// The mixins observed in the loader configuration, executable form.
pub fn mixins_of_config(config: &Json) -> (r: Vec<String>)
    ensures
        strs_view(r@) == mixins_of(jview(*config)),
{
    let none: Vec<String> = Vec::new();
    proof {
        assert(strs_view(none@) =~= Seq::<Seq<char>>::empty());
    }
    match config {
        Json::Obj(ms) => {
            let key = str_to_chars("mixins");
            match crate::json::get_member(ms, &key) {
                Some(Json::Obj(t)) => {
                    let ghost w = jview_members(t@);
                    let mut out: Vec<String> = Vec::new();
                    let mut i: usize = 0;
                    proof {
                        crate::json::lemma_jview_members_len(t@);
                        assert(w.subrange(0, w.len() as int) =~= w);
                        assert(strs_view(out@) + mixins_list(w) =~= mixins_list(w));
                    }
                    while i < t.len()
                        invariant
                            0 <= i <= t@.len(),
                            w == jview_members(t@),
                            w.len() == t@.len(),
                            mixins_list(w) == strs_view(out@) + mixins_list(
                                w.subrange(i as int, w.len() as int),
                            ),
                        decreases t@.len() - i,
                    {
                        let ghost suf = w.subrange(i as int, w.len() as int);
                        proof {
                            crate::json::lemma_jview_members_index(t@, i as int);
                            assert(suf[0] == w[i as int]);
                            assert(suf.subrange(1, suf.len() as int) =~= w.subrange(
                                i as int + 1,
                                w.len() as int,
                            ));
                        }
                        let ghost before = strs_view(out@);
                        match &t[i].1 {
                            Json::Obj(inner) => {
                                let mut part = true_keys_of(inner);
                                let ghost pv = strs_view(part@);
                                out.append(&mut part);
                                proof {
                                    assert(strs_view(out@) =~= before + pv);
                                }
                            },
                            _ => {},
                        }
                        i = i + 1;
                        proof {
                            assert(strs_view(out@) + mixins_list(
                                w.subrange(i as int, w.len() as int),
                            ) =~= mixins_list(w));
                        }
                    }
                    proof {
                        assert(w.subrange(i as int, w.len() as int) =~= Seq::<(
                            Seq<char>,
                            JsonV,
                        )>::empty());
                        assert(strs_view(out@) + Seq::<Seq<char>>::empty() =~= strs_view(out@));
                    }
                    out
                },
                _ => none,
            }
        },
        _ => none,
    }
}

/// The plain-text loaders listing: one line per group, `name -> ids`.
pub open spec fn loaders_text(ms: Seq<(Seq<char>, Seq<Seq<char>>)>) -> Seq<char>
    decreases ms.len(),
{
    if ms.len() == 0 {
        Seq::empty()
    } else {
        ms[0].0 + " -> "@ + joined_ids(ms[0].1) + "\n"@ + loaders_text(
            ms.subrange(1, ms.len() as int),
        )
    }
}

/// Append the comma-joined ids of one group.
fn push_joined(out: &mut Vec<char>, ids: &Vec<String>)
    ensures
        final(out)@ == old(out)@ + joined_ids(strs_view(ids@)),
{
    let mut i: usize = 0;
    while i < ids.len()
        invariant
            0 <= i <= ids@.len(),
            i == 0 ==> out@ == old(out)@,
            i > 0 ==> out@ == old(out)@ + joined_ids(strs_view(ids@).subrange(0, i as int)),
        decreases ids@.len() - i,
    {
        if i > 0 {
            let comma = str_to_chars(",");
            extend_chars(out, &comma);
        }
        let ghost pre = strs_view(ids@).subrange(0, i as int);
        proof {
            assert(pre.push(ids@[i as int]@) =~= strs_view(ids@).subrange(0, i as int + 1));
            lemma_joined_ids_push(pre, ids@[i as int]@);
        }
        let id = str_to_chars(ids[i].as_str());
        extend_chars(out, &id);
        i = i + 1;
        proof {
            assert(out@ =~= old(out)@ + joined_ids(strs_view(ids@).subrange(0, i as int)));
        }
    }
    proof {
        if ids@.len() == 0 {
            assert(strs_view(ids@) =~= Seq::<Seq<char>>::empty());
            assert(out@ =~= old(out)@ + joined_ids(strs_view(ids@)));
        } else {
            assert(strs_view(ids@).subrange(0, ids@.len() as int) =~= strs_view(ids@));
        }
    }
}

/// Render the grouped module list as plain text.
pub fn render_loaders(ms: &Vec<Module>) -> (r: String)
    ensures
        r@ == loaders_text(modules_view(ms@)),
{
    let ghost w = modules_view(ms@);
    let mut out: Vec<char> = Vec::new();
    let mut i: usize = 0;
    proof {
        assert(w.subrange(0, w.len() as int) =~= w);
        assert(out@ + loaders_text(w) =~= loaders_text(w));
    }
    while i < ms.len()
        invariant
            0 <= i <= ms@.len(),
            w == modules_view(ms@),
            w.len() == ms@.len(),
            loaders_text(w) == out@ + loaders_text(w.subrange(i as int, w.len() as int)),
        decreases ms@.len() - i,
    {
        let ghost suf = w.subrange(i as int, w.len() as int);
        proof {
            assert(w[i as int] == (ms@[i as int].name@, strs_view(ms@[i as int].includes@)));
            assert(suf[0] == w[i as int]);
            assert(suf.subrange(1, suf.len() as int) =~= w.subrange(i as int + 1, w.len() as int));
        }
        let name = str_to_chars(ms[i].name.as_str());
        extend_chars(&mut out, &name);
        let arrow = str_to_chars(" -> ");
        extend_chars(&mut out, &arrow);
        push_joined(&mut out, &ms[i].includes);
        let nl = str_to_chars("\n");
        extend_chars(&mut out, &nl);
        i = i + 1;
        proof {
            assert(loaders_text(w) == out@ + loaders_text(
                w.subrange(i as int, w.len() as int),
            ));
        }
    }
    proof {
        assert(w.subrange(i as int, w.len() as int) =~= Seq::<(Seq<char>, Seq<Seq<char>>)>::empty());
        assert(out@ + Seq::<char>::empty() =~= out@);
    }
    chars_to_string(&out)
}

/// The whole loaders listing: the observed mixins on one leading line when
/// there are any, then one line per generated group.
pub open spec fn loaders_doc(
    mixins: Seq<Seq<char>>,
    ms: Seq<(Seq<char>, Seq<Seq<char>>)>,
) -> Seq<char> {
    (if mixins.len() == 0 {
        Seq::<char>::empty()
    } else {
        "mixins -> "@ + joined_ids(mixins) + "\n"@
    }) + loaders_text(ms)
}

/// The loaders endpoint: the plain-text listing of the configuration's mixins
/// and the generated groups, or the literal body `NAH` when generation fails.
pub fn serve_loaders_dump_json(
    records: &Vec<ModuleData>,
    config: &ClientLoaderConfig,
    policy: Option<&BundlePolicy>,
) -> (r: String)
    ensures
        policy is Some ==> r@ == loaders_doc(
            mixins_of(jview(config.config)),
            gen_modules((*policy->0).groups@, filtered_records(*policy->0, records@)),
        ),
        policy is None ==> r@ == "NAH"@,
{
    match gather_state(records, config, policy) {
        Ok(p) => {
            let (_derived, modules) = p;
            let mixins = mixins_of_config(&config.config);
            let mut out: Vec<char> = Vec::new();
            if mixins.len() > 0 {
                let head = str_to_chars("mixins -> ");
                extend_chars(&mut out, &head);
                push_joined(&mut out, &mixins);
                let nl = str_to_chars("\n");
                extend_chars(&mut out, &nl);
            } else {
                proof {
                    assert(strs_view(mixins@).len() == 0);
                }
            }
            let groups = render_loaders(&modules);
            let tail = str_to_chars(groups.as_str());
            extend_chars(&mut out, &tail);
            chars_to_string(&out)
        },
        Err(_e) => String::from_str("NAH"),
    }
}

// ------------------------------------------------------------------
// The posted configuration
// ------------------------------------------------------------------

/// The acknowledgement body for a well-formed posted configuration.
pub open spec fn post_ack() -> Seq<char> {
    "Was Good!"@
}

/// The body answered for a malformed posted configuration; the request still
/// succeeds at the HTTP level, deliberately.
pub open spec fn post_parse_error() -> Seq<char> {
    "could not parse the posted configuration"@
}

/// Handle a posted loader-configuration snapshot: a body that decodes as a
/// configuration (a JSON object whose recognized fields are well typed)
/// replaces the five posted fields — never `deps` — atomically under the
/// store's lock and is acknowledged; anything else, malformed JSON and
/// mistyped documents alike, changes nothing and answers the parse error
/// text, still as a success at the HTTP level.
pub fn handle_post_data(store: &mut ClientLoaderConfig, body: &str) -> (r: String)
    requires
        body@.len() < usize::MAX,
    ensures
        json_of(body@) is None ==> *final(store) == *old(store) && r@ == post_parse_error(),
        json_of(body@) is Some && !config_decodes(json_of(body@)->0) ==> *final(store) == *old(
            store,
        ) && r@ == post_parse_error(),
        json_of(body@) is Some && config_decodes(json_of(body@)->0) ==> {
            let doc = json_of(body@)->0;
            &&& r@ == post_ack()
            &&& final(store).base_url@ == cfg_base_url(doc)->0
            &&& strs_view(final(store).deps@) == strs_view(old(store).deps@)
            &&& jview(final(store).map) == cfg_json_field(doc, "map"@)
            &&& jview(final(store).config) == cfg_json_field(doc, "config"@)
            &&& paths_view(final(store).paths@) == cfg_paths(doc)->0
            &&& shims_view(final(store).shim@) == cfg_shim(doc)->0
        },
{
    let chars = str_to_chars(body);
    match parse_json(&chars) {
        Some(j) => match client_config_of_json(&j) {
            Some(next) => {
                store.replace(next);
                String::from_str("Was Good!")
            },
            None => String::from_str("could not parse the posted configuration"),
        },
        None => String::from_str("could not parse the posted configuration"),
    }
}

// ------------------------------------------------------------------
// The intercepted loader-configuration response
// ------------------------------------------------------------------

/// The first index at or after `i` where character `c` occurs; the length if
/// it never does.
pub open spec fn idx_of(s: Seq<char>, i: int, c: char) -> int
    decreases s.len() - i,
{
    if !(0 <= i < s.len()) {
        s.len() as int
    } else if s[i] == c {
        i
    } else {
        idx_of(s, i + 1, c)
    }
}

pub proof fn lemma_idx_of_bounds(s: Seq<char>, i: int, c: char)
    requires
        0 <= i <= s.len(),
    ensures
        i <= idx_of(s, i, c) <= s.len(),
    decreases s.len() - i,
{
    if i < s.len() && s[i] != c {
        lemma_idx_of_bounds(s, i + 1, c);
    }
}

/// The first index at or after `i` where `p` occurs; the length if it never
/// does.
pub open spec fn find_sub(s: Seq<char>, i: int, p: Seq<char>) -> int
    decreases s.len() - i,
    via find_sub_decreases
{
    if !(0 <= i) || i + p.len() > s.len() {
        s.len() as int
    } else if s.subrange(i, i + p.len() as int) == p {
        i
    } else {
        find_sub(s, i + 1, p)
    }
}

#[via_fn]
proof fn find_sub_decreases(s: Seq<char>, i: int, p: Seq<char>) {
    if 0 <= i && i + p.len() <= s.len() && s.subrange(i, i + p.len() as int) != p {
        if p.len() == 0 {
            assert(s.subrange(i, i) =~= p);
        }
    }
}

/// The quoted strings of a bracketed list starting at `i`, up to the closing
/// bracket.
pub open spec fn read_items(s: Seq<char>, i: int) -> Seq<Seq<char>>
    decreases s.len() - i,
    via read_items_decreases
{
    if !(0 <= i <= s.len()) {
        Seq::empty()
    } else {
        let q = idx_of(s, i, '"');
        let b = idx_of(s, i, ']');
        if q >= s.len() || b < q {
            Seq::empty()
        } else {
            let e = idx_of(s, q + 1, '"');
            if e >= s.len() {
                Seq::empty()
            } else {
                seq![s.subrange(q + 1, e)] + read_items(s, e + 1)
            }
        }
    }
}

#[via_fn]
proof fn read_items_decreases(s: Seq<char>, i: int) {
    if 0 <= i <= s.len() {
        lemma_idx_of_bounds(s, i, '"');
        let q = idx_of(s, i, '"');
        if q < s.len() {
            lemma_idx_of_bounds(s, q + 1, '"');
        }
    }
}

/// The dependency list observed in a loader-configuration body: the quoted
/// strings of the first bracketed list after the first `deps` marker. A body
/// without a `deps` marker, or without a bracket after it, carries no list at
/// all — which is not the same as carrying an empty one.
pub open spec fn deps_of(s: Seq<char>) -> Option<Seq<Seq<char>>> {
    let d = find_sub(s, 0, "deps"@);
    if d >= s.len() {
        None
    } else {
        let b = idx_of(s, d, '[');
        if b >= s.len() {
            None
        } else {
            Some(read_items(s, b + 1))
        }
    }
}

/// Find one character, executable form.
fn find_char(s: &Vec<char>, i: usize, c: char) -> (r: usize)
    requires
        i <= s@.len(),
    ensures
        r as int == idx_of(s@, i as int, c),
        i <= r <= s@.len(),
{
    let mut j = i;
    while j < s.len() && s[j] != c
        invariant
            i <= j <= s@.len(),
            idx_of(s@, i as int, c) == idx_of(s@, j as int, c),
        decreases s@.len() - j,
    {
        j = j + 1;
    }
    j
}

/// Find a substring, executable form.
fn find_sub_at(s: &Vec<char>, i: usize, p: &Vec<char>) -> (r: usize)
    requires
        i <= s@.len(),
    ensures
        r as int == find_sub(s@, i as int, p@),
        i <= r <= s@.len(),
{
    let mut j = i;
    loop
        invariant
            i <= j <= s@.len(),
            find_sub(s@, i as int, p@) == find_sub(s@, j as int, p@),
        decreases s@.len() - j,
    {
        if p.len() > s.len() - j {
            proof {
                assert(j + p@.len() > s@.len());
            }
            return s.len();
        }
        if matches_at(s, j, p) {
            return j;
        }
        proof {
            if p@.len() == 0 {
                assert(s@.subrange(j as int, j as int) =~= p@);
            }
            assert(p@.len() > 0);
            assert(j < s@.len());
        }
        j = j + 1;
    }
}

/// Copy one character range.
fn sub_chars(s: &Vec<char>, a: usize, b: usize) -> (r: Vec<char>)
    requires
        a <= b <= s@.len(),
    ensures
        r@ == s@.subrange(a as int, b as int),
{
    let mut out: Vec<char> = Vec::new();
    let mut i = a;
    while i < b
        invariant
            a <= i <= b <= s@.len(),
            out@ == s@.subrange(a as int, i as int),
        decreases b - i,
    {
        out.push(s[i]);
        i = i + 1;
        proof {
            assert(out@ =~= s@.subrange(a as int, i as int));
        }
    }
    out
}

/// Read the quoted strings of a bracketed list, executable form.
fn read_items_at(s: &Vec<char>, i: usize) -> (r: Vec<String>)
    requires
        i <= s@.len(),
    ensures
        strs_view(r@) == read_items(s@, i as int),
{
    let mut out: Vec<String> = Vec::new();
    let mut cur = i;
    proof {
        assert(strs_view(out@) =~= Seq::<Seq<char>>::empty());
        assert(strs_view(out@) + read_items(s@, i as int) =~= read_items(s@, i as int));
    }
    loop
        invariant
            i <= cur <= s@.len(),
            read_items(s@, i as int) == strs_view(out@) + read_items(s@, cur as int),
        decreases s@.len() - cur,
    {
        let q = find_char(s, cur, '"');
        let b = find_char(s, cur, ']');
        if q >= s.len() || b < q {
            proof {
                assert(read_items(s@, cur as int) =~= Seq::<Seq<char>>::empty());
                assert(strs_view(out@) + Seq::<Seq<char>>::empty() =~= strs_view(out@));
            }
            return out;
        }
        let e = find_char(s, q + 1, '"');
        if e >= s.len() {
            proof {
                assert(read_items(s@, cur as int) =~= Seq::<Seq<char>>::empty());
                assert(strs_view(out@) + Seq::<Seq<char>>::empty() =~= strs_view(out@));
            }
            return out;
        }
        let item = sub_chars(s, q + 1, e);
        let ghost before = strs_view(out@);
        out.push(chars_to_string(&item));
        cur = e + 1;
        proof {
            assert(strs_view(out@) =~= before.push(s@.subrange(q as int + 1, e as int)));
            assert(read_items(s@, i as int) =~= strs_view(out@) + read_items(s@, cur as int));
        }
    }
}

/// Extract the observed dependency list from a loader-configuration body, if
/// one is there to extract.
pub fn get_deps_from_str(body: &str) -> (r: Option<Vec<String>>)
    ensures
        match r {
            Some(v) => deps_of(body@) == Some(strs_view(v@)),
            None => deps_of(body@) is None,
        },
{
    let chars = str_to_chars(body);
    let marker = str_to_chars("deps");
    let d = find_sub_at(&chars, 0, &marker);
    if d >= chars.len() {
        return None;
    }
    let b = find_char(&chars, d, '[');
    if b >= chars.len() {
        return None;
    }
    Some(read_items_at(&chars, b + 1))
}

/// The fixed tracking snippet appended to the served module loader: it
/// reports every module the loader resolves as a `bs_track` ping carrying
/// `{url, id, referrer}`.
pub open spec fn require_js_snippet() -> Seq<char> {
    "\n;(function(){if(window.require){window.require.onResourceLoad=function(c,m){var i=new Image();i.src='/?bs_track='+encodeURIComponent(JSON.stringify({url:String((m&&m.url)||''),id:String((m&&m.id)||''),referrer:String(window.location.pathname||'/')}));};}})();"@
}

/// Serve the instrumented module loader: the origin's require.js body with
/// the fixed tracking snippet appended. The body bytes come in buffered and
/// capped; over the cap or not UTF-8, the request fails.
pub fn serve_instrumented_require_js(bytes: &Vec<u8>) -> (r: Result<String, ProxyBodyError>)
    ensures
        bytes@.len() > BODY_CAP ==> r is Err && r->Err_0 is TooLarge,
        bytes@.len() <= BODY_CAP && !valid_utf8(bytes@) ==> r is Err && r->Err_0 is NotText,
        bytes@.len() <= BODY_CAP && valid_utf8(bytes@) ==> r is Ok && r->Ok_0@ == decode_utf8(
            bytes@,
        ) + require_js_snippet(),
{
    match decode_proxy_body(bytes) {
        Ok(text) => {
            let mut out = str_to_chars(text.as_str());
            let snippet = str_to_chars(
                "\n;(function(){if(window.require){window.require.onResourceLoad=function(c,m){var i=new Image();i.src='/?bs_track='+encodeURIComponent(JSON.stringify({url:String((m&&m.url)||''),id:String((m&&m.id)||''),referrer:String(window.location.pathname||'/')}));};}})();",
            );
            extend_chars(&mut out, &snippet);
            Ok(chars_to_string(&out))
        },
        Err(e) => Err(e),
    }
}

/// The fixed instrumentation snippet appended to the intercepted
/// loader-configuration script.
pub open spec fn post_config_snippet() -> Seq<char> {
    "\n;(function(){var x=new XMLHttpRequest();x.open('POST','/__bs/post');x.setRequestHeader('Content-Type','application/json');x.send(JSON.stringify(window.requirejs&&window.requirejs.s?window.requirejs.s.contexts._.config:{}));})();"@
}

/// Transform the intercepted loader-configuration response: when a dependency
/// list is observed it is merged into the store (a body without one leaves
/// `deps` alone), and the fixed instrumentation snippet is appended to the
/// body. The body bytes come in buffered and capped; over the cap or not
/// UTF-8, the request fails and the store is untouched.
pub fn serve_requirejs_config(store: &mut ClientLoaderConfig, bytes: &Vec<u8>) -> (r: Result<
    String,
    ProxyBodyError,
>)
    ensures
        bytes@.len() > BODY_CAP ==> r is Err && r->Err_0 is TooLarge && *final(store) == *old(
            store,
        ),
        bytes@.len() <= BODY_CAP && !valid_utf8(bytes@) ==> r is Err && r->Err_0 is NotText
            && *final(store) == *old(store),
        bytes@.len() <= BODY_CAP && valid_utf8(bytes@) ==> {
            let text = decode_utf8(bytes@);
            &&& r is Ok
            &&& r->Ok_0@ == text + post_config_snippet()
            &&& deps_of(text) is Some ==> strs_view(final(store).deps@) == deps_of(text)->0
            &&& deps_of(text) is None ==> final(store).deps == old(store).deps
            &&& final(store).base_url == old(store).base_url
            &&& final(store).map == old(store).map
            &&& final(store).config == old(store).config
            &&& final(store).paths == old(store).paths
            &&& final(store).shim == old(store).shim
        },
{
    match decode_proxy_body(bytes) {
        Ok(text) => {
            match get_deps_from_str(text.as_str()) {
                Some(deps) => {
                    store.merge_deps(deps);
                },
                None => {},
            }
            let mut out = str_to_chars(text.as_str());
            let snippet = str_to_chars(
                "\n;(function(){var x=new XMLHttpRequest();x.open('POST','/__bs/post');x.setRequestHeader('Content-Type','application/json');x.send(JSON.stringify(window.requirejs&&window.requirejs.s?window.requirejs.s.contexts._.config:{}));})();",
            );
            extend_chars(&mut out, &snippet);
            Ok(chars_to_string(&out))
        },
        Err(e) => Err(e),
    }
}

} // verus!
