//! The bundle generator: merges the accumulated usage records, the live
//! loader configuration and a bundle policy into a build configuration and a
//! grouped module list.
//!
//! Everything here is a pure function of its inputs, over ordered sequences,
//! so generation is deterministic by construction.

use vstd::prelude::*;
use crate::usage::{ModuleData, md_eq};
use crate::client_config::{ClientLoaderConfig, PathMapping, ShimEntry, clone_json};
use crate::json::{Json, jview};
use crate::text::{str_to_chars, chars_to_string, matches_at, string_eq, clone_string_vec};

verus! {

/// A named bundle group: the module ids to be loaded together.
pub struct Module {
    pub name: String,
    pub includes: Vec<String>,
}

/// One grouping rule of the policy: records whose referrer is listed (by
/// exact match) belong to the group.
pub struct GroupRule {
    pub name: String,
    pub referrers: Vec<String>,
}

/// The bundle policy loaded from a file: an optional module blacklist and the
/// grouping rules, both applied in their given order.
pub struct BundlePolicy {
    pub module_blacklist: Option<Vec<String>>,
    pub groups: Vec<GroupRule>,
}

/// The generated build configuration.
pub struct DerivedBuildConfig {
    pub deps: Vec<String>,
    pub map: Json,
    pub config: Json,
    pub paths: Vec<PathMapping>,
    pub shim: Vec<ShimEntry>,
    pub modules: Vec<Module>,
}

/// The views of a string list.
pub open spec fn strs_view(l: Seq<String>) -> Seq<Seq<char>> {
    l.map_values(|s: String| s@)
}

/// Membership of `x` in the id list `bl`, by exact equality: an id that is a
/// superstring or substring of a listed id, but not equal, is not a member.
pub open spec fn in_ids(bl: Seq<Seq<char>>, x: Seq<char>) -> bool {
    exists|i: int| 0 <= i < bl.len() && bl[i] == x
}

/// The effective blacklist: the built-in translation-module entry followed by
/// the policy's configured entries.
pub open spec fn eff_blacklist(pbl: Seq<String>) -> Seq<Seq<char>> {
    seq!["js-translation"@] + strs_view(pbl)
}

/// The records whose module id is not blacklisted, in their given order.
pub open spec fn filter_bl(rs: Seq<ModuleData>, bl: Seq<Seq<char>>) -> Seq<ModuleData>
    decreases rs.len(),
{
    if rs.len() == 0 {
        rs
    } else {
        let rest = filter_bl(rs.subrange(1, rs.len() as int), bl);
        if in_ids(bl, rs[0].id@) {
            rest
        } else {
            seq![rs[0]] + rest
        }
    }
}

/// Exact-match membership test of a module id in a blacklist.
pub fn contains_id(bl: &Vec<String>, x: &String) -> (r: bool)
    ensures
        r == in_ids(strs_view(bl@), x@),
{
    let mut i: usize = 0;
    while i < bl.len()
        invariant
            0 <= i <= bl@.len(),
            forall|k: int| 0 <= k < i ==> bl@[k]@ != x@,
        decreases bl@.len() - i,
    {
        if string_eq(&bl[i], x) {
            proof {
                assert(strs_view(bl@)[i as int] == x@);
            }
            return true;
        }
        i = i + 1;
    }
    proof {
        assert(forall|k: int| 0 <= k < bl@.len() ==> strs_view(bl@)[k] == bl@[k]@);
    }
    false
}

/// Remove every record whose module id equals a blacklist entry; everything
/// else passes through in order.
pub fn drop_blacklisted(records: &Vec<ModuleData>, blacklist: &Vec<String>) -> (r: Vec<
    ModuleData,
>)
    ensures
        r@ == filter_bl(records@, strs_view(blacklist@)),
{
    let ghost bl = strs_view(blacklist@);
    let mut out: Vec<ModuleData> = Vec::new();
    let mut i: usize = 0;
    proof {
        assert(records@.subrange(0, records@.len() as int) =~= records@);
        assert(out@ + filter_bl(records@, bl) =~= filter_bl(records@, bl));
    }
    while i < records.len()
        invariant
            0 <= i <= records@.len(),
            bl == strs_view(blacklist@),
            filter_bl(records@, bl) == out@ + filter_bl(
                records@.subrange(i as int, records@.len() as int),
                bl,
            ),
        decreases records@.len() - i,
    {
        let ghost suf = records@.subrange(i as int, records@.len() as int);
        proof {
            assert(suf[0] == records@[i as int]);
            assert(suf.subrange(1, suf.len() as int) =~= records@.subrange(
                i as int + 1,
                records@.len() as int,
            ));
        }
        if !contains_id(blacklist, &records[i].id) {
            out.push(crate::usage::clone_module_data(&records[i]));
            proof {
                assert(out@ + filter_bl(
                    records@.subrange(i as int + 1, records@.len() as int),
                    bl,
                ) =~= filter_bl(records@, bl));
            }
        }
        i = i + 1;
    }
    proof {
        assert(records@.subrange(i as int, records@.len() as int) =~= Seq::<ModuleData>::empty());
        assert(out@ + Seq::<ModuleData>::empty() =~= out@);
    }
    out
}

// ------------------------------------------------------------------
// Path stripping
// ------------------------------------------------------------------

pub open spec fn starts_with(s: Seq<char>, p: Seq<char>) -> bool {
    s.len() >= p.len() && s.subrange(0, p.len() as int) == p
}

/// Everything after the first '/' at or after `i`; empty if there is none.
pub open spec fn after_first_slash(s: Seq<char>, i: int) -> Seq<char>
    decreases s.len() - i,
{
    if !(0 <= i < s.len()) {
        Seq::empty()
    } else if s[i] == '/' {
        s.subrange(i + 1, s.len() as int)
    } else {
        after_first_slash(s, i + 1)
    }
}

pub proof fn lemma_after_first_slash_len(s: Seq<char>, i: int)
    requires
        0 <= i,
    ensures
        after_first_slash(s, i).len() <= s.len() - i - 1 || after_first_slash(s, i).len() == 0,
    decreases s.len() - i,
{
    if 0 <= i < s.len() && s[i] != '/' {
        lemma_after_first_slash_len(s, i + 1);
    }
}

/// Strip any absolute-URL prefix from a path mapping, repeatedly, so only the
/// path segment after the host remains; a path without a recognizable prefix
/// passes through unchanged.
pub open spec fn strip_path(p: Seq<char>) -> Seq<char>
    decreases p.len(),
    via strip_path_decreases
{
    if starts_with(p, "http://"@) {
        strip_path(after_first_slash(p, 7))
    } else if starts_with(p, "https://"@) {
        strip_path(after_first_slash(p, 8))
    } else {
        p
    }
}

#[via_fn]
proof fn strip_path_decreases(p: Seq<char>) {
    reveal_strlit("http://");
    reveal_strlit("https://");
    if starts_with(p, "http://"@) {
        lemma_after_first_slash_len(p, 7);
    } else if starts_with(p, "https://"@) {
        lemma_after_first_slash_len(p, 8);
    }
}

/// A stripped path has no absolute-URL prefix left.
pub proof fn lemma_strip_path_no_prefix(p: Seq<char>)
    ensures
        !starts_with(strip_path(p), "http://"@),
        !starts_with(strip_path(p), "https://"@),
    decreases p.len(),
{
    reveal_strlit("http://");
    reveal_strlit("https://");
    if starts_with(p, "http://"@) {
        lemma_after_first_slash_len(p, 7);
        lemma_strip_path_no_prefix(after_first_slash(p, 7));
    } else if starts_with(p, "https://"@) {
        lemma_after_first_slash_len(p, 8);
        lemma_strip_path_no_prefix(after_first_slash(p, 8));
    }
}

/// Path stripping is idempotent: stripping an already-stripped path is a
/// no-op.
pub proof fn lemma_strip_path_idempotent(p: Seq<char>)
    ensures
        strip_path(strip_path(p)) == strip_path(p),
{
    lemma_strip_path_no_prefix(p);
}

/// Executable form of one prefix check.
fn has_prefix(s: &Vec<char>, p: &Vec<char>) -> (r: bool)
    ensures
        r == starts_with(s@, p@),
{
    if p.len() > s.len() {
        return false;
    }
    matches_at(s, 0, p)
}

/// Executable form of `after_first_slash`.
fn cut_after_first_slash(s: &Vec<char>, i: usize) -> (r: Vec<char>)
    requires
        i <= s@.len(),
    ensures
        r@ == after_first_slash(s@, i as int),
{
    let mut j = i;
    while j < s.len() && s[j] != '/'
        invariant
            i <= j <= s@.len(),
            after_first_slash(s@, i as int) == after_first_slash(s@, j as int),
        decreases s@.len() - j,
    {
        j = j + 1;
    }
    let mut out: Vec<char> = Vec::new();
    if j >= s.len() {
        proof {
            assert(out@ =~= after_first_slash(s@, i as int));
        }
        return out;
    }
    let mut k = j + 1;
    while k < s.len()
        invariant
            j + 1 <= k <= s@.len(),
            out@ == s@.subrange(j as int + 1, k as int),
        decreases s@.len() - k,
    {
        out.push(s[k]);
        k = k + 1;
        proof {
            assert(out@ =~= s@.subrange(j as int + 1, k as int));
        }
    }
    proof {
        assert(out@ =~= after_first_slash(s@, j as int));
    }
    out
}

/// Strip the absolute-URL prefix of one path, executable form.
pub fn strip_path_str(p: &String) -> (r: String)
    ensures
        r@ == strip_path(p@),
{
    let http = str_to_chars("http://");
    let https = str_to_chars("https://");
    let mut cur = str_to_chars(p.as_str());
    proof {
        reveal_strlit("http://");
        reveal_strlit("https://");
    }
    loop
        invariant
            http@ == "http://"@,
            https@ == "https://"@,
            http@.len() == 7,
            https@.len() == 8,
            strip_path(p@) == strip_path(cur@),
        decreases cur@.len(),
    {
        if has_prefix(&cur, &http) {
            proof {
                lemma_after_first_slash_len(cur@, 7);
            }
            cur = cut_after_first_slash(&cur, 7);
        } else if has_prefix(&cur, &https) {
            proof {
                lemma_after_first_slash_len(cur@, 8);
            }
            cur = cut_after_first_slash(&cur, 8);
        } else {
            return chars_to_string(&cur);
        }
    }
}

/// `b` is `a` with its path stripped and its id untouched.
pub open spec fn path_stripped(a: PathMapping, b: PathMapping) -> bool {
    b.id@ == a.id@ && b.path@ == strip_path(a.path@)
}

/// `b` is `a` stripped, mapping for mapping.
pub open spec fn paths_stripped(a: Seq<PathMapping>, b: Seq<PathMapping>) -> bool {
    b.len() == a.len() && forall|i: int| 0 <= i < a.len() ==> path_stripped(a[i], #[trigger] b[i])
}

/// Strip every path mapping; ids are untouched.
pub fn strip_paths(paths: &Vec<PathMapping>) -> (r: Vec<PathMapping>)
    ensures
        paths_stripped(paths@, r@),
{
    let mut out: Vec<PathMapping> = Vec::new();
    let mut i: usize = 0;
    while i < paths.len()
        invariant
            0 <= i <= paths@.len(),
            out@.len() == i,
            forall|k: int| 0 <= k < i ==> path_stripped(paths@[k], #[trigger] out@[k]),
        decreases paths@.len() - i,
    {
        out.push(PathMapping { id: paths[i].id.clone(), path: strip_path_str(&paths[i].path) });
        i = i + 1;
        proof {
            assert(path_stripped(paths@[i - 1], out@[i - 1]));
        }
    }
    out
}

// ------------------------------------------------------------------
// Shim normalization
// ------------------------------------------------------------------

/// `b` is `a` with an explicit export name: entries that had one keep it,
/// entries without one get the module id itself as the deterministic
/// placeholder.
pub open spec fn shim_fixed(a: ShimEntry, b: ShimEntry) -> bool {
    &&& b.id@ == a.id@
    &&& b.deps@ == a.deps@
    &&& match a.exports {
        Some(e) => b.exports is Some && b.exports->0@ == e@,
        None => b.exports is Some && b.exports->0@ == a.id@,
    }
}

/// `b` is `a` normalized, entry for entry.
pub open spec fn shims_fixed(a: Seq<ShimEntry>, b: Seq<ShimEntry>) -> bool {
    b.len() == a.len() && forall|i: int| 0 <= i < a.len() ==> shim_fixed(a[i], #[trigger] b[i])
}

/// Give every shim entry an explicit export name.
pub fn fix_shims(shims: &Vec<ShimEntry>) -> (r: Vec<ShimEntry>)
    ensures
        shims_fixed(shims@, r@),
{
    let mut out: Vec<ShimEntry> = Vec::new();
    let mut i: usize = 0;
    while i < shims.len()
        invariant
            0 <= i <= shims@.len(),
            out@.len() == i,
            forall|k: int| 0 <= k < i ==> shim_fixed(shims@[k], #[trigger] out@[k]),
        decreases shims@.len() - i,
    {
        let exports = match &shims[i].exports {
            Some(e) => Some(e.clone()),
            None => Some(shims[i].id.clone()),
        };
        out.push(
            ShimEntry {
                id: shims[i].id.clone(),
                deps: clone_string_vec(&shims[i].deps),
                exports,
            },
        );
        i = i + 1;
    }
    out
}

// ------------------------------------------------------------------
// Module grouping
// ------------------------------------------------------------------

/// Whether a record belongs to a rule's group: its referrer is listed,
/// exactly.
pub open spec fn rule_matches(referrers: Seq<String>, m: ModuleData) -> bool {
    in_ids(strs_view(referrers), m.referrer@)
}

/// The distinct module ids of the records matching the rule, in order of
/// first observation, appended to `acc`.
pub open spec fn group_step(
    acc: Seq<Seq<char>>,
    rs: Seq<ModuleData>,
    referrers: Seq<String>,
) -> Seq<Seq<char>>
    decreases rs.len(),
{
    if rs.len() == 0 {
        acc
    } else {
        let acc2 = if rule_matches(referrers, rs[0]) && !acc.contains(rs[0].id@) {
            acc.push(rs[0].id@)
        } else {
            acc
        };
        group_step(acc2, rs.subrange(1, rs.len() as int), referrers)
    }
}

pub open spec fn group_ids(rs: Seq<ModuleData>, referrers: Seq<String>) -> Seq<Seq<char>> {
    group_step(Seq::empty(), rs, referrers)
}

/// The generated groups: one `(name, ids)` pair per rule with at least one
/// matching record, in rule order.
pub open spec fn gen_modules(rules: Seq<GroupRule>, rs: Seq<ModuleData>) -> Seq<
    (Seq<char>, Seq<Seq<char>>),
>
    decreases rules.len(),
{
    if rules.len() == 0 {
        Seq::empty()
    } else {
        let ids = group_ids(rs, rules[0].referrers@);
        let rest = gen_modules(rules.subrange(1, rules.len() as int), rs);
        if ids.len() > 0 {
            seq![(rules[0].name@, ids)] + rest
        } else {
            rest
        }
    }
}

/// The view of a generated module list.
pub open spec fn modules_view(ms: Seq<Module>) -> Seq<(Seq<char>, Seq<Seq<char>>)> {
    ms.map_values(|m: Module| (m.name@, strs_view(m.includes@)))
}

/// Exact-match membership of a module id in an id list, executable form.
fn contains_string_view(l: &Vec<String>, x: &String) -> (r: bool)
    ensures
        r == strs_view(l@).contains(x@),
{
    let mut i: usize = 0;
    while i < l.len()
        invariant
            0 <= i <= l@.len(),
            forall|k: int| 0 <= k < i ==> l@[k]@ != x@,
        decreases l@.len() - i,
    {
        if string_eq(&l[i], x) {
            proof {
                assert(strs_view(l@)[i as int] == x@);
            }
            return true;
        }
        i = i + 1;
    }
    proof {
        assert(forall|k: int| 0 <= k < l@.len() ==> strs_view(l@)[k] == l@[k]@);
        assert(!strs_view(l@).contains(x@));
    }
    false
}

/// Collect the distinct ids of the records matching one rule, in first-seen
/// order.
fn collect_group(records: &Vec<ModuleData>, referrers: &Vec<String>) -> (r: Vec<String>)
    ensures
        strs_view(r@) == group_ids(records@, referrers@),
{
    let mut out: Vec<String> = Vec::new();
    let mut i: usize = 0;
    proof {
        assert(records@.subrange(0, records@.len() as int) =~= records@);
        assert(strs_view(out@) =~= Seq::<Seq<char>>::empty());
    }
    while i < records.len()
        invariant
            0 <= i <= records@.len(),
            group_ids(records@, referrers@) == group_step(
                strs_view(out@),
                records@.subrange(i as int, records@.len() as int),
                referrers@,
            ),
        decreases records@.len() - i,
    {
        let ghost suf = records@.subrange(i as int, records@.len() as int);
        proof {
            assert(suf[0] == records@[i as int]);
            assert(suf.subrange(1, suf.len() as int) =~= records@.subrange(
                i as int + 1,
                records@.len() as int,
            ));
        }
        if contains_id(referrers, &records[i].referrer) && !contains_string_view(
            &out,
            &records[i].id,
        ) {
            let ghost before = strs_view(out@);
            out.push(records[i].id.clone());
            proof {
                assert(strs_view(out@) =~= before.push(records@[i as int].id@));
            }
        }
        i = i + 1;
    }
    proof {
        assert(records@.subrange(i as int, records@.len() as int) =~= Seq::<
            ModuleData,
        >::empty());
    }
    out
}

/// Partition the records into named bundle groups according to the rules;
/// each rule with at least one matching record yields one module, rule order
/// kept, and each module's `includes` list holds the distinct ids of its
/// group's records in first-observation order.
pub fn generate_modules(records: &Vec<ModuleData>, rules: &Vec<GroupRule>) -> (r: Vec<Module>)
    ensures
        modules_view(r@) == gen_modules(rules@, records@),
{
    let mut out: Vec<Module> = Vec::new();
    let mut i: usize = 0;
    proof {
        assert(rules@.subrange(0, rules@.len() as int) =~= rules@);
        assert(modules_view(out@) =~= Seq::<(Seq<char>, Seq<Seq<char>>)>::empty());
        assert(modules_view(out@) + gen_modules(rules@, records@) =~= gen_modules(
            rules@,
            records@,
        ));
    }
    while i < rules.len()
        invariant
            0 <= i <= rules@.len(),
            gen_modules(rules@, records@) == modules_view(out@) + gen_modules(
                rules@.subrange(i as int, rules@.len() as int),
                records@,
            ),
        decreases rules@.len() - i,
    {
        let ghost suf = rules@.subrange(i as int, rules@.len() as int);
        proof {
            assert(suf[0] == rules@[i as int]);
            assert(suf.subrange(1, suf.len() as int) =~= rules@.subrange(
                i as int + 1,
                rules@.len() as int,
            ));
        }
        let includes = collect_group(records, &rules[i].referrers);
        if includes.len() > 0 {
            let ghost before = modules_view(out@);
            let m = Module { name: rules[i].name.clone(), includes };
            proof {
                assert(strs_view(m.includes@).len() > 0);
            }
            out.push(m);
            proof {
                assert(modules_view(out@) =~= before.push(
                    (rules@[i as int].name@, group_ids(records@, rules@[i as int].referrers@)),
                ));
                assert(modules_view(out@) + gen_modules(
                    rules@.subrange(i as int + 1, rules@.len() as int),
                    records@,
                ) =~= gen_modules(rules@, records@));
            }
        } else {
            proof {
                assert(strs_view(includes@).len() == 0);
            }
        }
        i = i + 1;
    }
    proof {
        assert(rules@.subrange(i as int, rules@.len() as int) =~= Seq::<GroupRule>::empty());
        assert(modules_view(out@) + Seq::<(Seq<char>, Seq<Seq<char>>)>::empty() =~= modules_view(
            out@,
        ));
    }
    out
}

// ------------------------------------------------------------------
// Assembly
// ------------------------------------------------------------------

/// Build the effective blacklist: the built-in entry followed by the
/// policy's.
pub fn make_blacklist(policy_bl: &Vec<String>) -> (r: Vec<String>)
    ensures
        strs_view(r@) == eff_blacklist(policy_bl@),
{
    let mut r: Vec<String> = Vec::new();
    r.push(String::from_str("js-translation"));
    let mut rest = clone_string_vec(policy_bl);
    r.append(&mut rest);
    proof {
        assert(strs_view(r@) =~= eff_blacklist(policy_bl@));
    }
    r
}

/// The blacklist that a policy puts into effect.
pub open spec fn policy_blacklist(pol: BundlePolicy) -> Seq<Seq<char>> {
    if pol.module_blacklist is Some {
        eff_blacklist(pol.module_blacklist->0@)
    } else {
        eff_blacklist(Seq::<String>::empty())
    }
}

/// The usage records that survive a policy's blacklist.
pub open spec fn filtered_records(pol: BundlePolicy, rs: Seq<ModuleData>) -> Seq<ModuleData> {
    filter_bl(rs, policy_blacklist(pol))
}

/// Merge the usage records, the configuration snapshot and the policy into
/// the build configuration and the grouped module list.
///
/// Without a policy, generation fails with a configuration error and produces
/// no partial output. With one, the result is exactly: the records minus the
/// effective blacklist, grouped by the policy's rules; the store's `deps`,
/// `map` and `config` verbatim; its `paths` stripped; its `shim` normalized.
pub fn gather_state(
    records: &Vec<ModuleData>,
    config: &ClientLoaderConfig,
    policy: Option<&BundlePolicy>,
) -> (r: Result<(DerivedBuildConfig, Vec<Module>), String>)
    ensures
        policy is None <==> r is Err,
        r is Err ==> r->Err_0@ == "bundle policy is not configured"@,
        r is Ok ==> modules_view(r->Ok_0.0.modules@) == gen_modules(
            (*policy->0).groups@,
            filtered_records(*policy->0, records@),
        ),
        r is Ok ==> modules_view(r->Ok_0.1@) == gen_modules(
            (*policy->0).groups@,
            filtered_records(*policy->0, records@),
        ),
        r is Ok ==> r->Ok_0.0.deps@ == config.deps@,
        r is Ok ==> jview(r->Ok_0.0.map) == jview(config.map),
        r is Ok ==> jview(r->Ok_0.0.config) == jview(config.config),
        r is Ok ==> paths_stripped(config.paths@, r->Ok_0.0.paths@),
        r is Ok ==> shims_fixed(config.shim@, r->Ok_0.0.shim@),
{
    match policy {
        Some(pol) => {
            let empty_bl: Vec<String> = Vec::new();
            let blacklist = match &pol.module_blacklist {
                Some(b) => make_blacklist(b),
                None => make_blacklist(&empty_bl),
            };
            let filtered = drop_blacklisted(records, &blacklist);
            let bundle_modules = generate_modules(&filtered, &pol.groups);
            let modules_copy = clone_modules(&bundle_modules);
            let derived = DerivedBuildConfig {
                deps: clone_string_vec(&config.deps),
                map: clone_json(&config.map),
                config: clone_json(&config.config),
                paths: strip_paths(&config.paths),
                shim: fix_shims(&config.shim),
                modules: bundle_modules,
            };
            proof {
                assert(empty_bl@ =~= Seq::<String>::empty());
                assert(strs_view(blacklist@) == policy_blacklist(*pol));
                assert(filtered@ == filtered_records(*pol, records@));
                assert(modules_view(derived.modules@) == gen_modules(
                    pol.groups@,
                    filtered_records(*pol, records@),
                ));
                assert(modules_view(modules_copy@) == gen_modules(
                    pol.groups@,
                    filtered_records(*pol, records@),
                ));
            }
            Ok((derived, modules_copy))
        },
        None => Err(String::from_str("bundle policy is not configured")),
    }
}

/// Deep copy of a module list.
pub fn clone_modules(ms: &Vec<Module>) -> (r: Vec<Module>)
    ensures
        modules_view(r@) == modules_view(ms@),
{
    let mut r: Vec<Module> = Vec::new();
    let mut i: usize = 0;
    while i < ms.len()
        invariant
            0 <= i <= ms@.len(),
            r@.len() == i,
            forall|k: int|
                0 <= k < i ==> #[trigger] r@[k].name@ == ms@[k].name@ && strs_view(r@[k].includes@)
                    == strs_view(ms@[k].includes@),
        decreases ms@.len() - i,
    {
        r.push(Module { name: ms[i].name.clone(), includes: clone_string_vec(&ms[i].includes) });
        i = i + 1;
        proof {
            assert(r@[i - 1].name@ == ms@[i - 1].name@);
            assert(strs_view(r@[i - 1].includes@) =~= strs_view(ms@[i - 1].includes@));
        }
    }
    proof {
        assert(modules_view(r@) =~= modules_view(ms@));
    }
    r
}

// ------------------------------------------------------------------
// Laws
// ------------------------------------------------------------------

/// With no usage records, no rule matches anything, so generation yields an
/// empty module list whatever the rules say.
pub proof fn lemma_gen_modules_empty(rules: Seq<GroupRule>)
    ensures
        gen_modules(rules, Seq::<ModuleData>::empty()) == Seq::<(
            Seq<char>,
            Seq<Seq<char>>,
        )>::empty(),
    decreases rules.len(),
{
    if rules.len() > 0 {
        lemma_gen_modules_empty(rules.subrange(1, rules.len() as int));
    }
}

/// Blacklist filtering is exact-match: every record whose module id equals no
/// blacklist entry survives filtering, so an id that is a superstring or
/// substring of a listed id, but not equal to one, is never removed.
pub proof fn lemma_filter_exact(rs: Seq<ModuleData>, bl: Seq<Seq<char>>, i: int)
    requires
        0 <= i < rs.len(),
        !in_ids(bl, rs[i].id@),
    ensures
        filter_bl(rs, bl).contains(rs[i]),
    decreases rs.len(),
{
    if i == 0 {
        assert(filter_bl(rs, bl)[0] == rs[0]);
    } else {
        let t = rs.subrange(1, rs.len() as int);
        assert(t[i - 1] == rs[i]);
        lemma_filter_exact(t, bl, i - 1);
        let k = choose|k: int| 0 <= k < filter_bl(t, bl).len() && filter_bl(t, bl)[k] == rs[i];
        if in_ids(bl, rs[0].id@) {
            assert(filter_bl(rs, bl)[k] == rs[i]);
        } else {
            assert(filter_bl(rs, bl)[k + 1] == rs[i]);
        }
    }
}

/// With an empty accumulator, generation yields an empty module list whatever
/// the policy's blacklist and rules say; the other fields of the build
/// configuration are the store's values after stripping and normalization, as
/// `gather_state` states.
pub proof fn lemma_generation_empty_accumulator(pol: BundlePolicy)
    ensures
        gen_modules(pol.groups@, filtered_records(pol, Seq::<ModuleData>::empty())) == Seq::<(
            Seq<char>,
            Seq<Seq<char>>,
        )>::empty(),
{
    lemma_gen_modules_empty(pol.groups@);
}

/// Generation is a function of the views of its inputs: two record sequences
/// that agree record for record produce the same filtered sequence and the
/// same groups, so two generation calls against unchanged inputs produce
/// identical output.
pub proof fn lemma_generation_deterministic(
    rs1: Seq<ModuleData>,
    rs2: Seq<ModuleData>,
    bl: Seq<Seq<char>>,
    rules: Seq<GroupRule>,
)
    requires
        rs1.len() == rs2.len(),
        forall|i: int| 0 <= i < rs1.len() ==> md_eq(rs1[i], rs2[i]),
    ensures
        gen_modules(rules, rs1) == gen_modules(rules, rs2),
    decreases rules.len(),
{
    if rules.len() > 0 {
        lemma_group_step_deterministic(Seq::empty(), rs1, rs2, rules[0].referrers@);
        lemma_generation_deterministic(rs1, rs2, bl, rules.subrange(1, rules.len() as int));
    }
}

proof fn lemma_group_step_deterministic(
    acc: Seq<Seq<char>>,
    rs1: Seq<ModuleData>,
    rs2: Seq<ModuleData>,
    referrers: Seq<String>,
)
    requires
        rs1.len() == rs2.len(),
        forall|i: int| 0 <= i < rs1.len() ==> md_eq(rs1[i], rs2[i]),
    ensures
        group_step(acc, rs1, referrers) == group_step(acc, rs2, referrers),
    decreases rs1.len(),
{
    if rs1.len() > 0 {
        let t1 = rs1.subrange(1, rs1.len() as int);
        let t2 = rs2.subrange(1, rs2.len() as int);
        assert(forall|i: int| 0 <= i < t1.len() ==> md_eq(t1[i], #[trigger] t2[i]));
        let acc2 = if rule_matches(referrers, rs1[0]) && !acc.contains(rs1[0].id@) {
            acc.push(rs1[0].id@)
        } else {
            acc
        };
        lemma_group_step_deterministic(acc2, t1, t2, referrers);
    }
}

} // verus!
