//! The usage accumulator: a deduplicating, insertion-ordered collection of
//! observed module loads, reported by instrumented pages.

use vstd::prelude::*;

verus! {

/// One observed client-side module load, decoded from a tracking query
/// parameter. Equality is structural over all three fields.
#[verifier::ext_equal]
pub struct ModuleData {
    pub url: String,
    pub id: String,
    pub referrer: String,
}

/// Structural equality of two usage records.
pub open spec fn md_eq(a: ModuleData, b: ModuleData) -> bool {
    a.url@ == b.url@ && a.id@ == b.id@ && a.referrer@ == b.referrer@
}

/// Whether a structurally equal record already occurs in `s`.
pub open spec fn contains_md(s: Seq<ModuleData>, m: ModuleData) -> bool {
    exists|i: int| 0 <= i < s.len() && md_eq(s[i], m)
}

/// No two elements of `s` are structurally equal.
pub open spec fn distinct_mds(s: Seq<ModuleData>) -> bool {
    forall|i: int, j: int| 0 <= i < j < s.len() ==> !md_eq(s[i], s[j])
}

/// Deep copy of one record.
pub fn clone_module_data(m: &ModuleData) -> (r: ModuleData)
    ensures
        r == *m,
{
    let r = ModuleData { url: m.url.clone(), id: m.id.clone(), referrer: m.referrer.clone() };
    proof {
        assert(r =~= *m);
    }
    r
}

/// Structural equality, executable form.
pub fn module_data_eq(a: &ModuleData, b: &ModuleData) -> (r: bool)
    ensures
        r == md_eq(*a, *b),
{
    a.url.eq(&b.url) && a.id.eq(&b.id) && a.referrer.eq(&b.referrer)
}

/// Insertion-ordered collection of usage records with set-like semantics:
/// a record is appended only if no structurally equal record is present, so
/// the collection never holds two structurally equal entries.
pub struct UsageAccumulator {
    items: Vec<ModuleData>,
}

impl UsageAccumulator {
    /// The recorded sequence, in first-seen order.
    pub closed spec fn view(&self) -> Seq<ModuleData> {
        self.items@
    }

    /// Well-formedness: the collection holds no two structurally equal
    /// entries. `new` establishes it and `record` preserves it.
    pub open spec fn wf(&self) -> bool {
        distinct_mds(self@)
    }

    /// An empty accumulator.
    pub fn new() -> (r: UsageAccumulator)
        ensures
            r@ == Seq::<ModuleData>::empty(),
            r.wf(),
    {
        let r = UsageAccumulator { items: Vec::new() };
        proof {
            assert(r@ =~= Seq::<ModuleData>::empty());
        }
        r
    }

    /// Append `entry` unless a structurally equal record is already present;
    /// existing entries keep their positions, so first-seen order is kept,
    /// and however `record` is called the collection stays duplicate-free.
    pub fn record(&mut self, entry: ModuleData)
        requires
            old(self).wf(),
        ensures
            contains_md(old(self)@, entry) ==> final(self)@ == old(self)@,
            !contains_md(old(self)@, entry) ==> final(self)@ == old(self)@.push(entry),
            final(self).wf(),
    {
        let mut exists_already = false;
        let mut i: usize = 0;
        while i < self.items.len()
            invariant
                0 <= i <= self.items@.len(),
                exists_already == exists|k: int|
                    0 <= k < i && md_eq(self.items@[k], entry),
            decreases self.items@.len() - i,
        {
            if module_data_eq(&self.items[i], &entry) {
                exists_already = true;
            }
            i = i + 1;
        }
        if !exists_already {
            self.items.push(entry);
        }
    }

    /// A consistent point-in-time copy of the recorded sequence.
    pub fn snapshot(&self) -> (r: Vec<ModuleData>)
        ensures
            r@ == self@,
    {
        let mut r: Vec<ModuleData> = Vec::new();
        let mut i: usize = 0;
        while i < self.items.len()
            invariant
                0 <= i <= self.items@.len(),
                r@ == self.items@.subrange(0, i as int),
            decreases self.items@.len() - i,
        {
            r.push(clone_module_data(&self.items[i]));
            i = i + 1;
            proof {
                assert(r@ =~= self.items@.subrange(0, i as int));
            }
        }
        proof {
            assert(r@ =~= self@);
        }
        r
    }
}

} // verus!
