//! Presets: named, order-indexed extensions. Each contributes proxy
//! resources, request-lifecycle hooks and rewrite functions; composition is
//! by configuration order.

use vstd::prelude::*;
use crate::usage::{UsageAccumulator, ModuleData, contains_md, md_eq};
use crate::wire::{extract_data, extract_spec};
use crate::rewrites::{RewriteContext, replace_cookie_domain_on_page, remove_all,
    cookie_domain_fragment};

verus! {

/// The options of the platform preset: where the loader lives on the origin
/// and where the bundle policy file lives on disk.
pub struct M2PresetOptions {
    pub require_path: Option<String>,
    pub bundle_config: Option<String>,
}

/// The request method a resource answers to.
pub enum HttpMethod {
    Get,
    Post,
}

/// Which handler a resource is served by.
pub enum Endpoint {
    InstrumentedRequireJs,
    ReqsDump,
    ConfigDump,
    BuildJson,
    LoadersDump,
    SeedDump,
    PostConfig,
    RequireJsConfig,
}

/// One extra endpoint contributed by a preset.
pub struct ResourceDef {
    pub path: String,
    pub method: HttpMethod,
    pub endpoint: Endpoint,
}

/// The identity of a rewrite function; the ordered list of these is applied
/// to eligible response bodies.
pub enum RewriteFnId {
    CookieDomain,
}

/// The identity of a request-lifecycle hook.
pub enum HookId {
    ReqCatcher,
}

/// The view of a resource table.
pub open spec fn resources_view(rs: Seq<ResourceDef>) -> Seq<(Seq<char>, HttpMethod, Endpoint)> {
    rs.map_values(|r: ResourceDef| (r.path@, r.method, r.endpoint))
}

/// The fixed resource table that the platform preset contributes, in order.
pub open spec fn m2_resource_table() -> Seq<(Seq<char>, HttpMethod, Endpoint)> {
    seq![
        (
            "/static/{version}/frontend/{vendor}/{theme}/{locale}/requirejs/require.js"@,
            HttpMethod::Get,
            Endpoint::InstrumentedRequireJs,
        ),
        ("/__bs/reqs.json"@, HttpMethod::Get, Endpoint::ReqsDump),
        ("/__bs/config.json"@, HttpMethod::Get, Endpoint::ConfigDump),
        ("/__bs/build.json"@, HttpMethod::Get, Endpoint::BuildJson),
        ("/__bs/loaders.json"@, HttpMethod::Get, Endpoint::LoadersDump),
        ("/__bs/seed.json"@, HttpMethod::Get, Endpoint::SeedDump),
        ("/__bs/post"@, HttpMethod::Post, Endpoint::PostConfig),
        (
            "/static/{version}/frontend/{vendor}/{theme}/{locale}/requirejs-config.js"@,
            HttpMethod::Get,
            Endpoint::RequireJsConfig,
        ),
    ]
}

/// The platform preset: the resources, hooks and rewrites for instrumenting
/// the target e-commerce platform's module loader.
pub struct M2Preset {
    pub options: M2PresetOptions,
}

impl M2Preset {
    pub fn new(options: M2PresetOptions) -> (r: M2Preset)
        ensures
            r.options == options,
    {
        M2Preset { options }
    }

    /// The extra endpoints this preset contributes, in order.
    pub fn add_resources(&self) -> (r: Vec<ResourceDef>)
        ensures
            resources_view(r@) == m2_resource_table(),
    {
        let mut out: Vec<ResourceDef> = Vec::new();
        out.push(
            ResourceDef {
                path: String::from_str(
                    "/static/{version}/frontend/{vendor}/{theme}/{locale}/requirejs/require.js",
                ),
                method: HttpMethod::Get,
                endpoint: Endpoint::InstrumentedRequireJs,
            },
        );
        out.push(
            ResourceDef {
                path: String::from_str("/__bs/reqs.json"),
                method: HttpMethod::Get,
                endpoint: Endpoint::ReqsDump,
            },
        );
        out.push(
            ResourceDef {
                path: String::from_str("/__bs/config.json"),
                method: HttpMethod::Get,
                endpoint: Endpoint::ConfigDump,
            },
        );
        out.push(
            ResourceDef {
                path: String::from_str("/__bs/build.json"),
                method: HttpMethod::Get,
                endpoint: Endpoint::BuildJson,
            },
        );
        out.push(
            ResourceDef {
                path: String::from_str("/__bs/loaders.json"),
                method: HttpMethod::Get,
                endpoint: Endpoint::LoadersDump,
            },
        );
        out.push(
            ResourceDef {
                path: String::from_str("/__bs/seed.json"),
                method: HttpMethod::Get,
                endpoint: Endpoint::SeedDump,
            },
        );
        out.push(
            ResourceDef {
                path: String::from_str("/__bs/post"),
                method: HttpMethod::Post,
                endpoint: Endpoint::PostConfig,
            },
        );
        out.push(
            ResourceDef {
                path: String::from_str(
                    "/static/{version}/frontend/{vendor}/{theme}/{locale}/requirejs-config.js",
                ),
                method: HttpMethod::Get,
                endpoint: Endpoint::RequireJsConfig,
            },
        );
        proof {
            assert(resources_view(out@) =~= m2_resource_table());
        }
        out
    }

    /// The resources this preset adds when enhancing the application.
    pub fn enhance(&self) -> (r: Vec<ResourceDef>)
        ensures
            resources_view(r@) == m2_resource_table(),
    {
        self.add_resources()
    }

    /// The rewrite functions this preset contributes, in order.
    pub fn rewrites(&self) -> (r: Vec<RewriteFnId>)
        ensures
            r@ == seq![RewriteFnId::CookieDomain],
    {
        let mut out: Vec<RewriteFnId> = Vec::new();
        out.push(RewriteFnId::CookieDomain);
        proof {
            assert(out@ =~= seq![RewriteFnId::CookieDomain]);
        }
        out
    }

    /// The request-lifecycle hooks this preset installs before the handlers.
    pub fn add_before_middleware(&self) -> (r: Vec<HookId>)
        ensures
            r@ == seq![HookId::ReqCatcher],
    {
        let mut out: Vec<HookId> = Vec::new();
        out.push(HookId::ReqCatcher);
        proof {
            assert(out@ =~= seq![HookId::ReqCatcher]);
        }
        out
    }
}

/// Apply one rewrite function.
pub fn apply_rewrite(f: &RewriteFnId, body: &str, ctx: &RewriteContext) -> (r: String)
    ensures
        *f is CookieDomain ==> r@ == remove_all(
            body@,
            cookie_domain_fragment(ctx.host_to_replace@),
        ),
{
    match f {
        RewriteFnId::CookieDomain => replace_cookie_domain_on_page(body, ctx),
    }
}

/// The result of applying an ordered rewrite list, each function receiving
/// the output of the previous one.
pub open spec fn rewritten(body: Seq<char>, fns: Seq<RewriteFnId>, host: Seq<char>) -> Seq<char>
    decreases fns.len(),
{
    if fns.len() == 0 {
        body
    } else {
        rewritten(
            remove_all(body, cookie_domain_fragment(host)),
            fns.subrange(1, fns.len() as int),
            host,
        )
    }
}

/// Apply the full ordered rewrite list to an eligible response body.
pub fn apply_rewrites(body: String, fns: &Vec<RewriteFnId>, ctx: &RewriteContext) -> (r: String)
    ensures
        r@ == rewritten(body@, fns@, ctx.host_to_replace@),
{
    let mut cur = body;
    let mut i: usize = 0;
    proof {
        assert(fns@.subrange(0, fns@.len() as int) =~= fns@);
    }
    while i < fns.len()
        invariant
            0 <= i <= fns@.len(),
            rewritten(cur@, fns@.subrange(i as int, fns@.len() as int), ctx.host_to_replace@)
                == rewritten(body@, fns@, ctx.host_to_replace@),
        decreases fns@.len() - i,
    {
        let ghost suf = fns@.subrange(i as int, fns@.len() as int);
        proof {
            assert(suf[0] == fns@[i as int]);
            assert(suf.subrange(1, suf.len() as int) =~= fns@.subrange(
                i as int + 1,
                fns@.len() as int,
            ));
        }
        cur = apply_rewrite(&fns[i], cur.as_str(), ctx);
        i = i + 1;
    }
    proof {
        assert(fns@.subrange(i as int, fns@.len() as int) =~= Seq::<RewriteFnId>::empty());
    }
    cur
}

/// A registered preset.
pub enum Preset {
    M2(M2Preset),
}

/// Build the preset that a configuration name selects. An unknown name
/// selects nothing; the host skips it with a warning, not a fatal error.
pub fn preset_of_name(name: &str, options: M2PresetOptions) -> (r: Option<Preset>)
    ensures
        name@ == "m2"@ ==> r is Some && r->0 is M2 && r->0->M2_0.options == options,
        name@ != "m2"@ ==> r is None,
{
    let n = crate::text::str_to_chars(name);
    let m2 = crate::text::str_to_chars("m2");
    if crate::json::chars_eq(&n, &m2) {
        Some(Preset::M2(M2Preset::new(options)))
    } else {
        None
    }
}

/// The ordered set of registered presets; order is configuration order and
/// is significant.
pub struct PresetRegistry {
    pub presets: Vec<Preset>,
}

pub open spec fn preset_resources(p: Preset) -> Seq<(Seq<char>, HttpMethod, Endpoint)> {
    match p {
        Preset::M2(_) => m2_resource_table(),
    }
}

pub open spec fn preset_rewrites(p: Preset) -> Seq<RewriteFnId> {
    match p {
        Preset::M2(_) => seq![RewriteFnId::CookieDomain],
    }
}

pub open spec fn preset_hooks(p: Preset) -> Seq<HookId> {
    match p {
        Preset::M2(_) => seq![HookId::ReqCatcher],
    }
}

pub open spec fn registry_resources(ps: Seq<Preset>) -> Seq<(Seq<char>, HttpMethod, Endpoint)>
    decreases ps.len(),
{
    if ps.len() == 0 {
        Seq::empty()
    } else {
        preset_resources(ps[0]) + registry_resources(ps.subrange(1, ps.len() as int))
    }
}

pub open spec fn registry_rewrites(ps: Seq<Preset>) -> Seq<RewriteFnId>
    decreases ps.len(),
{
    if ps.len() == 0 {
        Seq::empty()
    } else {
        preset_rewrites(ps[0]) + registry_rewrites(ps.subrange(1, ps.len() as int))
    }
}

pub open spec fn registry_hooks(ps: Seq<Preset>) -> Seq<HookId>
    decreases ps.len(),
{
    if ps.len() == 0 {
        Seq::empty()
    } else {
        preset_hooks(ps[0]) + registry_hooks(ps.subrange(1, ps.len() as int))
    }
}

impl PresetRegistry {
    /// An empty registry.
    pub fn new() -> (r: PresetRegistry)
        ensures
            r.presets@ == Seq::<Preset>::empty(),
    {
        let r = PresetRegistry { presets: Vec::new() };
        proof {
            assert(r.presets@ =~= Seq::<Preset>::empty());
        }
        r
    }

    /// Register one more preset, after all earlier ones.
    pub fn register(&mut self, p: Preset)
        ensures
            final(self).presets@ == old(self).presets@.push(p),
    {
        self.presets.push(p);
    }

    /// Every preset's resources, concatenated in preset order.
    pub fn contribute_resources(&self) -> (r: Vec<ResourceDef>)
        ensures
            resources_view(r@) == registry_resources(self.presets@),
    {
        let ghost all = self.presets@;
        let mut out: Vec<ResourceDef> = Vec::new();
        let mut i: usize = 0;
        proof {
            assert(all.subrange(0, all.len() as int) =~= all);
            assert(resources_view(out@) =~= Seq::<(Seq<char>, HttpMethod, Endpoint)>::empty());
            assert(resources_view(out@) + registry_resources(all) =~= registry_resources(all));
        }
        while i < self.presets.len()
            invariant
                0 <= i <= self.presets@.len(),
                all == self.presets@,
                registry_resources(all) == resources_view(out@) + registry_resources(
                    all.subrange(i as int, all.len() as int),
                ),
            decreases self.presets@.len() - i,
        {
            let ghost suf = all.subrange(i as int, all.len() as int);
            proof {
                assert(suf[0] == all[i as int]);
                assert(suf.subrange(1, suf.len() as int) =~= all.subrange(
                    i as int + 1,
                    all.len() as int,
                ));
            }
            let ghost before = resources_view(out@);
            let mut contributed = match &self.presets[i] {
                Preset::M2(p) => p.add_resources(),
            };
            let ghost cv = resources_view(contributed@);
            out.append(&mut contributed);
            i = i + 1;
            proof {
                assert(resources_view(out@) =~= before + cv);
                assert(resources_view(out@) + registry_resources(
                    all.subrange(i as int, all.len() as int),
                ) =~= registry_resources(all));
            }
        }
        proof {
            assert(all.subrange(i as int, all.len() as int) =~= Seq::<Preset>::empty());
            assert(resources_view(out@) + Seq::<(Seq<char>, HttpMethod, Endpoint)>::empty()
                =~= resources_view(out@));
        }
        out
    }

    /// Every preset's rewrite functions, concatenated in preset order.
    pub fn contribute_rewrites(&self) -> (r: Vec<RewriteFnId>)
        ensures
            r@ == registry_rewrites(self.presets@),
    {
        let ghost all = self.presets@;
        let mut out: Vec<RewriteFnId> = Vec::new();
        let mut i: usize = 0;
        proof {
            assert(all.subrange(0, all.len() as int) =~= all);
            assert(out@ + registry_rewrites(all) =~= registry_rewrites(all));
        }
        while i < self.presets.len()
            invariant
                0 <= i <= self.presets@.len(),
                all == self.presets@,
                registry_rewrites(all) == out@ + registry_rewrites(
                    all.subrange(i as int, all.len() as int),
                ),
            decreases self.presets@.len() - i,
        {
            let ghost suf = all.subrange(i as int, all.len() as int);
            proof {
                assert(suf[0] == all[i as int]);
                assert(suf.subrange(1, suf.len() as int) =~= all.subrange(
                    i as int + 1,
                    all.len() as int,
                ));
            }
            let mut contributed = match &self.presets[i] {
                Preset::M2(p) => p.rewrites(),
            };
            out.append(&mut contributed);
            i = i + 1;
            proof {
                assert(out@ + registry_rewrites(all.subrange(i as int, all.len() as int))
                    =~= registry_rewrites(all));
            }
        }
        proof {
            assert(all.subrange(i as int, all.len() as int) =~= Seq::<Preset>::empty());
            assert(out@ + Seq::<RewriteFnId>::empty() =~= out@);
        }
        out
    }

    /// Every preset's hooks, concatenated in preset order.
    pub fn contribute_before_hooks(&self) -> (r: Vec<HookId>)
        ensures
            r@ == registry_hooks(self.presets@),
    {
        let ghost all = self.presets@;
        let mut out: Vec<HookId> = Vec::new();
        let mut i: usize = 0;
        proof {
            assert(all.subrange(0, all.len() as int) =~= all);
            assert(out@ + registry_hooks(all) =~= registry_hooks(all));
        }
        while i < self.presets.len()
            invariant
                0 <= i <= self.presets@.len(),
                all == self.presets@,
                registry_hooks(all) == out@ + registry_hooks(
                    all.subrange(i as int, all.len() as int),
                ),
            decreases self.presets@.len() - i,
        {
            let ghost suf = all.subrange(i as int, all.len() as int);
            proof {
                assert(suf[0] == all[i as int]);
                assert(suf.subrange(1, suf.len() as int) =~= all.subrange(
                    i as int + 1,
                    all.len() as int,
                ));
            }
            let mut contributed = match &self.presets[i] {
                Preset::M2(p) => p.add_before_middleware(),
            };
            out.append(&mut contributed);
            i = i + 1;
            proof {
                assert(out@ + registry_hooks(all.subrange(i as int, all.len() as int))
                    =~= registry_hooks(all));
            }
        }
        proof {
            assert(all.subrange(i as int, all.len() as int) =~= Seq::<Preset>::empty());
            assert(out@ + Seq::<HookId>::empty() =~= out@);
        }
        out
    }
}

/// The tracking middleware: it watches every request for the tracking query
/// parameter and records what it carries.
pub struct ReqCatcher {}

impl ReqCatcher {
    pub fn new() -> ReqCatcher {
        ReqCatcher {  }
    }

    /// What a recorded entry looks like.
    pub open spec fn entry_views(m: ModuleData) -> (Seq<char>, Seq<char>, Seq<char>) {
        (m.url@, m.id@, m.referrer@)
    }

    /// Handle the end of one request: if the tracking parameter carries a
    /// well-formed record, record it (deduplicated); otherwise the
    /// accumulator is untouched and the request is unaffected.
    pub fn finish(&self, acc: &mut UsageAccumulator, bs_track: Option<&String>)
        requires
            old(acc).wf(),
            bs_track is Some ==> bs_track->0@.len() < usize::MAX,
        ensures
            final(acc).wf(),
            bs_track is None ==> final(acc)@ == old(acc)@,
            bs_track is Some && extract_spec(bs_track->0@) is None ==> final(acc)@ == old(acc)@,
            bs_track is Some && extract_spec(bs_track->0@) is Some ==> {
                let t = extract_spec(bs_track->0@)->0;
                if exists|k: int|
                    0 <= k < old(acc)@.len() && Self::entry_views(#[trigger] old(acc)@[k]) == t {
                    final(acc)@ == old(acc)@
                } else {
                    final(acc)@.len() == old(acc)@.len() + 1 && final(acc)@.subrange(
                        0,
                        old(acc)@.len() as int,
                    ) == old(acc)@ && Self::entry_views(final(acc)@[old(acc)@.len() as int]) == t
                }
            },
    {
        match extract_data(bs_track) {
            Some(m) => {
                let ghost entry = m;
                let ghost pre = acc@;
                acc.record(m);
                proof {
                    let t = extract_spec(bs_track->0@)->0;
                    assert(Self::entry_views(entry) == t);
                    if exists|k: int|
                        0 <= k < pre.len() && Self::entry_views(#[trigger] pre[k]) == t {
                        let k = choose|k: int|
                            0 <= k < pre.len() && Self::entry_views(#[trigger] pre[k]) == t;
                        assert(md_eq(pre[k], entry));
                        assert(contains_md(pre, entry));
                    } else {
                        if contains_md(pre, entry) {
                            let k = choose|k: int| 0 <= k < pre.len() && md_eq(pre[k], entry);
                            assert(Self::entry_views(pre[k]) == t);
                        }
                        assert(!contains_md(pre, entry));
                        assert(final(acc)@ == pre.push(entry));
                        assert(final(acc)@.subrange(0, pre.len() as int) =~= pre);
                    }
                }
            },
            None => {},
        }
    }
}

} // verus!
