//! Response-body rewrite policies.
//!
//! A rewrite is a pure text transform keyed by a per-request [`RewriteContext`].
//! If its pattern is absent it returns the input unchanged.

use vstd::prelude::*;
use crate::text::{str_to_chars, chars_to_string, matches_at, extend_chars};

verus! {

/// Immutable per-request rewrite context: which origin host is being
/// impersonated and which host/port the proxy itself answers on.
pub struct RewriteContext {
    pub host_to_replace: String,
    pub target_host: String,
    pub target_port: u16,
}

/// The result of removing every occurrence of `p` from `s`, scanning left to
/// right; an empty pattern removes nothing.
pub open spec fn remove_all(s: Seq<char>, p: Seq<char>) -> Seq<char>
    decreases s.len(),
{
    if p.len() == 0 || s.len() == 0 {
        s
    } else if s.len() >= p.len() && s.subrange(0, p.len() as int) == p {
        remove_all(s.subrange(p.len() as int, s.len() as int), p)
    } else {
        seq![s[0]] + remove_all(s.subrange(1, s.len() as int), p)
    }
}

/// The exact on-page cookie-scope fragment emitted for `host`:
/// `"domain": ".<host>",`
pub open spec fn cookie_domain_fragment(host: Seq<char>) -> Seq<char> {
    "\"domain\": \"."@ + host + "\","@
}

/// Remove every occurrence of the pattern from `s`; occurrences are found by
/// exact character match, scanning left to right without overlap.
pub fn remove_all_chars(s: &Vec<char>, p: &Vec<char>) -> (r: Vec<char>)
    requires
        p@.len() > 0,
    ensures
        r@ == remove_all(s@, p@),
{
    let mut out: Vec<char> = Vec::new();
    let mut i: usize = 0;
    proof {
        assert(s@.subrange(0, s@.len() as int) =~= s@);
        assert(out@ + remove_all(s@, p@) =~= remove_all(s@, p@));
    }
    while i < s.len()
        invariant
            p@.len() > 0,
            0 <= i <= s@.len(),
            remove_all(s@, p@) == out@ + remove_all(s@.subrange(i as int, s@.len() as int), p@),
        decreases s@.len() - i,
    {
        let ghost suf = s@.subrange(i as int, s@.len() as int);
        if p.len() <= s.len() - i && matches_at(s, i, p) {
            proof {
                assert(suf.subrange(0, p@.len() as int) =~= s@.subrange(
                    i as int,
                    i + p@.len(),
                ));
                assert(suf.subrange(p@.len() as int, suf.len() as int) =~= s@.subrange(
                    i + p@.len(),
                    s@.len() as int,
                ));
            }
            i = i + p.len();
        } else {
            proof {
                if p@.len() <= s@.len() - i {
                    assert(suf.subrange(0, p@.len() as int) =~= s@.subrange(
                        i as int,
                        i + p@.len(),
                    ));
                } else {
                    assert(suf.len() < p@.len());
                }
                assert(suf.subrange(1, suf.len() as int) =~= s@.subrange(
                    i + 1,
                    s@.len() as int,
                ));
                assert(suf[0] == s@[i as int]);
            }
            out.push(s[i]);
            i = i + 1;
            proof {
                assert(remove_all(s@, p@) == out@ + remove_all(
                    s@.subrange(i as int, s@.len() as int),
                    p@,
                ));
            }
        }
    }
    proof {
        assert(s@.subrange(i as int, s@.len() as int) =~= Seq::<char>::empty());
        assert(out@ + Seq::<char>::empty() =~= out@);
    }
    out
}

/// Strip the origin's on-page cookie-scope declaration: every occurrence of
/// the exact fragment `"domain": ".<host_to_replace>",` is removed, and
/// nothing else changes. The host is matched as a literal string, not as a
/// suffix or pattern.
pub fn replace_cookie_domain_on_page(bytes: &str, context: &RewriteContext) -> (r: String)
    ensures
        r@ == remove_all(bytes@, cookie_domain_fragment(context.host_to_replace@)),
{
    let mut pattern = str_to_chars("\"domain\": \".");
    let host = str_to_chars(context.host_to_replace.as_str());
    extend_chars(&mut pattern, &host);
    let tail = str_to_chars("\",");
    extend_chars(&mut pattern, &tail);
    proof {
        reveal_strlit("\"domain\": \".");
        assert(pattern@ =~= cookie_domain_fragment(context.host_to_replace@));
    }
    let body = str_to_chars(bytes);
    let out = remove_all_chars(&body, &pattern);
    chars_to_string(&out)
}

/// If the pattern never occurs in `s` (no window of `s` equals `p`), removal
/// leaves `s` unchanged: rewrites with an absent pattern are the identity.
pub proof fn lemma_remove_all_absent(s: Seq<char>, p: Seq<char>)
    requires
        forall|i: int|
            0 <= i && i + p.len() <= s.len() ==> #[trigger] s.subrange(i, i + p.len()) != p,
    ensures
        remove_all(s, p) == s,
    decreases s.len(),
{
    if p.len() == 0 || s.len() == 0 {
    } else {
        if s.len() >= p.len() {
            assert(s.subrange(0, 0 + p.len() as int) != p);
        }
        let t = s.subrange(1, s.len() as int);
        assert forall|i: int| 0 <= i && i + p.len() <= t.len() implies #[trigger] t.subrange(
            i,
            i + p.len(),
        ) != p by {
            assert(t.subrange(i, i + p.len()) =~= s.subrange(i + 1, i + 1 + p.len()));
        }
        lemma_remove_all_absent(t, p);
        assert(seq![s[0]] + t =~= s);
    }
}

} // verus!
