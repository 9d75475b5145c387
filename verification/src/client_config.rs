//! The client loader configuration store: a mutable snapshot of the AMD
//! loader's live configuration, replaced wholesale when the client posts an
//! authoritative snapshot and refreshed piecewise when a configuration
//! response is intercepted.

use vstd::prelude::*;
use crate::json::{Json, JsonV, jview, jview_seq, jview_members, lemma_jview_seq_index,
    lemma_jview_members_index, lemma_jview_seq_push, lemma_jview_members_push};
use crate::text::clone_string_vec;

verus! {

/// One module-id-to-path mapping.
#[verifier::ext_equal]
pub struct PathMapping {
    pub id: String,
    pub path: String,
}

/// One shim descriptor: how the loader treats a non-AMD script.
#[verifier::ext_equal]
pub struct ShimEntry {
    pub id: String,
    pub deps: Vec<String>,
    pub exports: Option<String>,
}

/// The loader configuration mirrored by the proxy. `map` and `config` are
/// carried verbatim as JSON documents; the fields the generator reads are
/// held as plain values.
pub struct ClientLoaderConfig {
    pub base_url: String,
    pub deps: Vec<String>,
    pub map: Json,
    pub config: Json,
    pub paths: Vec<PathMapping>,
    pub shim: Vec<ShimEntry>,
}

/// Deep copy of a character vector.
pub fn clone_chars(v: &Vec<char>) -> (r: Vec<char>)
    ensures
        r@ == v@,
{
    let mut r: Vec<char> = Vec::new();
    let mut i: usize = 0;
    while i < v.len()
        invariant
            0 <= i <= v@.len(),
            r@ == v@.subrange(0, i as int),
        decreases v@.len() - i,
    {
        r.push(v[i]);
        i = i + 1;
        proof {
            assert(r@ =~= v@.subrange(0, i as int));
        }
    }
    proof {
        assert(r@ =~= v@);
    }
    r
}

/// Deep copy of a JSON document; the copy stands for the same document.
pub fn clone_json(j: &Json) -> (r: Json)
    ensures
        jview(r) == jview(*j),
    decreases *j,
{
    match j {
        Json::Null => Json::Null,
        Json::Bool(b) => Json::Bool(*b),
        Json::Num(s) => Json::Num(clone_chars(s)),
        Json::Str(s) => Json::Str(clone_chars(s)),
        Json::Arr(v) => {
            let mut out: Vec<Json> = Vec::new();
            proof {
                assert(jview_seq(out@) =~= jview_seq(v@.subrange(0, 0)));
            }
            let mut i: usize = 0;
            while i < v.len()
                invariant
                    0 <= i <= v@.len(),
                    *j == Json::Arr(*v),
                    jview_seq(out@) == jview_seq(v@.subrange(0, i as int)),
                decreases v@.len() - i,
            {
                proof {
                    assert(decreases_to!(*j => v@[i as int])) by {
                        assert(j->Arr_0 == *v);
                        assert(decreases_to!(*j => j->Arr_0));
                        assert(decreases_to!(*v => v@));
                        assert(decreases_to!(v@ => v@[i as int]));
                    }
                }
                let c = clone_json(&v[i]);
                proof {
                    lemma_jview_seq_push(out@, c);
                    lemma_jview_seq_push(
                        v@.subrange(0, i as int).map_values(|x: Json| x),
                        v@[i as int],
                    );
                }
                let ghost old_out = out@;
                out.push(c);
                proof {
                    lemma_jview_seq_index(v@.subrange(0, i as int + 1), i as int);
                    assert(v@.subrange(0, i as int).push(v@[i as int]) =~= v@.subrange(
                        0,
                        i as int + 1,
                    ));
                    lemma_jview_seq_push(v@.subrange(0, i as int), v@[i as int]);
                    assert(jview_seq(out@) == jview_seq(v@.subrange(0, i as int + 1)));
                }
                i = i + 1;
            }
            proof {
                assert(v@.subrange(0, v@.len() as int) =~= v@);
            }
            Json::Arr(out)
        },
        Json::Obj(ms) => {
            let mut out: Vec<(Vec<char>, Json)> = Vec::new();
            proof {
                assert(jview_members(out@) =~= jview_members(ms@.subrange(0, 0)));
            }
            let mut i: usize = 0;
            while i < ms.len()
                invariant
                    0 <= i <= ms@.len(),
                    *j == Json::Obj(*ms),
                    jview_members(out@) == jview_members(ms@.subrange(0, i as int)),
                decreases ms@.len() - i,
            {
                proof {
                    assert(decreases_to!(*j => ms@[i as int].1)) by {
                        assert(j->Obj_0 == *ms);
                        assert(decreases_to!(*j => j->Obj_0));
                        assert(decreases_to!(*ms => ms@));
                        assert(decreases_to!(ms@ => ms@[i as int]));
                        assert(decreases_to!(ms@[i as int] => ms@[i as int].1));
                    }
                }
                let key = clone_chars(&ms[i].0);
                let val = clone_json(&ms[i].1);
                proof {
                    lemma_jview_members_push(out@, key, val);
                    lemma_jview_members_push(
                        ms@.subrange(0, i as int),
                        ms@[i as int].0,
                        ms@[i as int].1,
                    );
                }
                out.push((key, val));
                proof {
                    assert(ms@.subrange(0, i as int).push(ms@[i as int]) =~= ms@.subrange(
                        0,
                        i as int + 1,
                    ));
                    assert(jview_members(out@) == jview_members(ms@.subrange(0, i as int + 1)));
                }
                i = i + 1;
            }
            proof {
                assert(ms@.subrange(0, ms@.len() as int) =~= ms@);
            }
            Json::Obj(out)
        },
    }
}

/// Deep copy of a path-mapping list.
pub fn clone_paths(v: &Vec<PathMapping>) -> (r: Vec<PathMapping>)
    ensures
        r@ == v@,
{
    let mut r: Vec<PathMapping> = Vec::new();
    let mut i: usize = 0;
    while i < v.len()
        invariant
            0 <= i <= v@.len(),
            r@ == v@.subrange(0, i as int),
        decreases v@.len() - i,
    {
        let p = PathMapping { id: v[i].id.clone(), path: v[i].path.clone() };
        proof {
            assert(p =~= v@[i as int]);
        }
        r.push(p);
        i = i + 1;
        proof {
            assert(r@ =~= v@.subrange(0, i as int));
        }
    }
    proof {
        assert(r@ =~= v@);
    }
    r
}

/// Two shim entries that say the same thing.
pub open spec fn shim_eq(a: ShimEntry, b: ShimEntry) -> bool {
    a.id@ == b.id@ && a.deps@ == b.deps@ && a.exports == b.exports
}

/// Two shim lists that say the same thing, entry for entry.
pub open spec fn shims_eq(a: Seq<ShimEntry>, b: Seq<ShimEntry>) -> bool {
    a.len() == b.len() && forall|i: int| 0 <= i < a.len() ==> shim_eq(a[i], b[i])
}

/// Deep copy of a shim list.
pub fn clone_shims(v: &Vec<ShimEntry>) -> (r: Vec<ShimEntry>)
    ensures
        shims_eq(r@, v@),
{
    let mut r: Vec<ShimEntry> = Vec::new();
    let mut i: usize = 0;
    while i < v.len()
        invariant
            0 <= i <= v@.len(),
            r@.len() == i,
            forall|k: int| 0 <= k < i ==> shim_eq(r@[k], v@[k]),
        decreases v@.len() - i,
    {
        let exports = match &v[i].exports {
            Some(e) => Some(e.clone()),
            None => None,
        };
        proof {
            assert(exports == v@[i as int].exports);
        }
        let s = ShimEntry { id: v[i].id.clone(), deps: clone_string_vec(&v[i].deps), exports };
        r.push(s);
        i = i + 1;
    }
    r
}

impl ClientLoaderConfig {
    /// An empty configuration: the state of the store before any snapshot or
    /// intercepted response has been seen.
    pub fn new() -> (r: ClientLoaderConfig)
        ensures
            r.base_url@ == Seq::<char>::empty(),
            r.deps@ == Seq::<String>::empty(),
            jview(r.map) == JsonV::Obj(Seq::<(Seq<char>, JsonV)>::empty()),
            jview(r.config) == JsonV::Obj(Seq::<(Seq<char>, JsonV)>::empty()),
            r.paths@ == Seq::<PathMapping>::empty(),
            r.shim@ == Seq::<ShimEntry>::empty(),
    {
        let r = ClientLoaderConfig {
            base_url: String::new(),
            deps: Vec::new(),
            map: Json::Obj(Vec::new()),
            config: Json::Obj(Vec::new()),
            paths: Vec::new(),
            shim: Vec::new(),
        };
        proof {
            assert(jview_members(Seq::<(Vec<char>, Json)>::empty()) =~= Seq::<(
                Seq<char>,
                JsonV,
            )>::empty());
        }
        r
    }

    /// Atomically swap in the five posted fields; `deps` is untouched. A
    /// reader that runs before or after this call sees the pre- or the
    /// post-state of the whole record, never a mixture — the host must call
    /// it under the store's exclusive lock.
    pub fn replace(&mut self, next: ClientLoaderConfig)
        ensures
            final(self).base_url == next.base_url,
            final(self).map == next.map,
            final(self).config == next.config,
            final(self).paths == next.paths,
            final(self).shim == next.shim,
            final(self).deps == old(self).deps,
    {
        self.base_url = next.base_url;
        self.map = next.map;
        self.config = next.config;
        self.paths = next.paths;
        self.shim = next.shim;
    }

    /// Atomically overwrite the eagerly-loaded dependency list.
    pub fn merge_deps(&mut self, deps: Vec<String>)
        ensures
            final(self).deps == deps,
            final(self).base_url == old(self).base_url,
            final(self).map == old(self).map,
            final(self).config == old(self).config,
            final(self).paths == old(self).paths,
            final(self).shim == old(self).shim,
    {
        self.deps = deps;
    }

    /// A consistent point-in-time copy for downstream use.
    pub fn snapshot(&self) -> (r: ClientLoaderConfig)
        ensures
            r.base_url@ == self.base_url@,
            r.deps@ == self.deps@,
            jview(r.map) == jview(self.map),
            jview(r.config) == jview(self.config),
            r.paths@ == self.paths@,
            shims_eq(r.shim@, self.shim@),
    {
        ClientLoaderConfig {
            base_url: self.base_url.clone(),
            deps: clone_string_vec(&self.deps),
            map: clone_json(&self.map),
            config: clone_json(&self.config),
            paths: clone_paths(&self.paths),
            shim: clone_shims(&self.shim),
        }
    }
}

} // verus!
