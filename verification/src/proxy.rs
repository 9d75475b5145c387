//! The proxy transform engine's computational core: the buffered-body size
//! cap, the UTF-8 decode boundary, and the client-facing header rebuild.
//!
//! The transport (sending the outbound request, streaming the response) lives
//! in the host program; it hands the buffered bytes and the origin's headers
//! in as plain values.

use vstd::prelude::*;
use vstd::utf8::{valid_utf8, decode_utf8};
use crate::text::{str_to_chars, chars_to_string, matches_at, extend_chars, string_eq};
use crate::rewrites::RewriteContext;

verus! {

/// The body buffer cap: a proxied body larger than this fails the request
/// instead of buffering without bound.
pub const BODY_CAP: usize = 1000000;

/// Why a proxied body could not be transformed.
pub enum ProxyBodyError {
    /// The origin body exceeded the buffer cap.
    TooLarge,
    /// The origin body is not valid UTF-8 text.
    NotText,
}

impl ProxyBodyError {
    /// The reported message text.
    pub fn message(&self) -> (r: String)
        ensures
            *self is TooLarge ==> r@ == "proxied body exceeded the size limit"@,
            *self is NotText ==> r@ == "proxied body is not valid text"@,
    {
        match self {
            ProxyBodyError::TooLarge => String::from_str("proxied body exceeded the size limit"),
            ProxyBodyError::NotText => String::from_str("proxied body is not valid text"),
        }
    }
}

/// Relies on `str::from_utf8`: it returns `Ok` exactly on valid UTF-8 input,
/// decoding those bytes and nothing else.
#[verifier::external_body]
fn decode_utf8_bytes(bytes: &Vec<u8>) -> (r: Option<String>)
    ensures
        r is Some <==> valid_utf8(bytes@),
        r is Some ==> r->0@ == decode_utf8(bytes@),
{
    match std::str::from_utf8(bytes.as_slice()) {
        Ok(s) => Some(s.to_string()),
        Err(_) => None,
    }
}

/// Decode a buffered origin body: over the cap it fails with a size-limit
/// error, bytes that are not UTF-8 fail with a decode error, and otherwise
/// the decoded text is returned.
pub fn decode_proxy_body(bytes: &Vec<u8>) -> (r: Result<String, ProxyBodyError>)
    ensures
        bytes@.len() > BODY_CAP ==> r is Err && r->Err_0 is TooLarge,
        bytes@.len() <= BODY_CAP && valid_utf8(bytes@) ==> r is Ok && r->Ok_0@ == decode_utf8(
            bytes@,
        ),
        bytes@.len() <= BODY_CAP && !valid_utf8(bytes@) ==> r is Err && r->Err_0 is NotText,
{
    if bytes.len() > BODY_CAP {
        return Err(ProxyBodyError::TooLarge);
    }
    match decode_utf8_bytes(bytes) {
        Some(s) => Ok(s),
        None => Err(ProxyBodyError::NotText),
    }
}

// ------------------------------------------------------------------
// Replacement and decimal rendering
// ------------------------------------------------------------------

/// The result of replacing every occurrence of `p` in `s` by `q`, scanning
/// left to right; an empty pattern replaces nothing.
pub open spec fn replace_all(s: Seq<char>, p: Seq<char>, q: Seq<char>) -> Seq<char>
    decreases s.len(),
{
    if p.len() == 0 || s.len() == 0 {
        s
    } else if s.len() >= p.len() && s.subrange(0, p.len() as int) == p {
        q + replace_all(s.subrange(p.len() as int, s.len() as int), p, q)
    } else {
        seq![s[0]] + replace_all(s.subrange(1, s.len() as int), p, q)
    }
}

/// Replace every occurrence of `p` in `s` by `q`, by exact character match.
pub fn replace_all_chars(s: &Vec<char>, p: &Vec<char>, q: &Vec<char>) -> (r: Vec<char>)
    requires
        p@.len() > 0,
    ensures
        r@ == replace_all(s@, p@, q@),
{
    let mut out: Vec<char> = Vec::new();
    let mut i: usize = 0;
    proof {
        assert(s@.subrange(0, s@.len() as int) =~= s@);
        assert(out@ + replace_all(s@, p@, q@) =~= replace_all(s@, p@, q@));
    }
    while i < s.len()
        invariant
            p@.len() > 0,
            0 <= i <= s@.len(),
            replace_all(s@, p@, q@) == out@ + replace_all(
                s@.subrange(i as int, s@.len() as int),
                p@,
                q@,
            ),
        decreases s@.len() - i,
    {
        let ghost suf = s@.subrange(i as int, s@.len() as int);
        if p.len() <= s.len() - i && matches_at(s, i, p) {
            proof {
                assert(suf.subrange(0, p@.len() as int) =~= s@.subrange(i as int, i + p@.len()));
                assert(suf.subrange(p@.len() as int, suf.len() as int) =~= s@.subrange(
                    i + p@.len(),
                    s@.len() as int,
                ));
            }
            extend_chars(&mut out, q);
            i = i + p.len();
            proof {
                assert(replace_all(s@, p@, q@) == out@ + replace_all(
                    s@.subrange(i as int, s@.len() as int),
                    p@,
                    q@,
                ));
            }
        } else {
            proof {
                if p@.len() <= s@.len() - i {
                    assert(suf.subrange(0, p@.len() as int) =~= s@.subrange(
                        i as int,
                        i + p@.len(),
                    ));
                } else {
                    assert(suf.len() < p@.len());
                }
                assert(suf.subrange(1, suf.len() as int) =~= s@.subrange(
                    i + 1,
                    s@.len() as int,
                ));
                assert(suf[0] == s@[i as int]);
            }
            out.push(s[i]);
            i = i + 1;
            proof {
                assert(replace_all(s@, p@, q@) == out@ + replace_all(
                    s@.subrange(i as int, s@.len() as int),
                    p@,
                    q@,
                ));
            }
        }
    }
    proof {
        assert(s@.subrange(i as int, s@.len() as int) =~= Seq::<char>::empty());
        assert(out@ + Seq::<char>::empty() =~= out@);
    }
    out
}

/// The decimal digit character for `n < 10`.
pub open spec fn digit_char(n: int) -> char {
    if n == 0 {
        '0'
    } else if n == 1 {
        '1'
    } else if n == 2 {
        '2'
    } else if n == 3 {
        '3'
    } else if n == 4 {
        '4'
    } else if n == 5 {
        '5'
    } else if n == 6 {
        '6'
    } else if n == 7 {
        '7'
    } else if n == 8 {
        '8'
    } else {
        '9'
    }
}

/// The decimal rendering of a number, most significant digit first.
pub open spec fn dec_digits(n: nat) -> Seq<char>
    decreases n,
{
    if n < 10 {
        seq![digit_char(n as int)]
    } else {
        dec_digits(n / 10).push(digit_char((n % 10) as int))
    }
}

/// Executable decimal rendering.
pub fn dec_of(n: usize) -> (r: Vec<char>)
    ensures
        r@ == dec_digits(n as nat),
    decreases n,
{
    if n < 10 {
        let c = if n == 0 {
            '0'
        } else if n == 1 {
            '1'
        } else if n == 2 {
            '2'
        } else if n == 3 {
            '3'
        } else if n == 4 {
            '4'
        } else if n == 5 {
            '5'
        } else if n == 6 {
            '6'
        } else if n == 7 {
            '7'
        } else if n == 8 {
            '8'
        } else {
            '9'
        };
        let mut r: Vec<char> = Vec::new();
        r.push(c);
        proof {
            assert(r@ =~= dec_digits(n as nat));
        }
        r
    } else {
        let mut r = dec_of(n / 10);
        let m = n % 10;
        let c = if m == 0 {
            '0'
        } else if m == 1 {
            '1'
        } else if m == 2 {
            '2'
        } else if m == 3 {
            '3'
        } else if m == 4 {
            '4'
        } else if m == 5 {
            '5'
        } else if m == 6 {
            '6'
        } else if m == 7 {
            '7'
        } else if m == 8 {
            '8'
        } else {
            '9'
        };
        r.push(c);
        r
    }
}

// ------------------------------------------------------------------
// Header rebuild
// ------------------------------------------------------------------

/// How one origin header is translated for the client: hop-by-hop length
/// framing is dropped (it is recomputed for the new body) and every other
/// value has the origin host replaced by the proxy's own advertised target.
/// Header names are expected in lowercase, as the transport hands them in.
pub open spec fn rebuilt_headers(
    hs: Seq<(Seq<char>, Seq<char>)>,
    host: Seq<char>,
    target: Seq<char>,
) -> Seq<(Seq<char>, Seq<char>)>
    decreases hs.len(),
{
    if hs.len() == 0 {
        Seq::empty()
    } else {
        let rest = rebuilt_headers(hs.subrange(1, hs.len() as int), host, target);
        if hs[0].0 == "content-length"@ || hs[0].0 == "transfer-encoding"@ {
            rest
        } else {
            seq![(hs[0].0, replace_all(hs[0].1, host, target))] + rest
        }
    }
}

/// The view of a header list.
pub open spec fn headers_view(hs: Seq<(String, String)>) -> Seq<(Seq<char>, Seq<char>)> {
    hs.map_values(|h: (String, String)| (h.0@, h.1@))
}

/// Rebuild the origin's headers for the client-facing response: length
/// framing is dropped and recomputed for the rewritten body, and host
/// references (the origin's own cookie scopes among them) are rewritten to
/// the proxy's advertised host, so no origin-scoped value is forwarded
/// untranslated.
pub fn create_outgoing(
    headers: &Vec<(String, String)>,
    host_to_replace: &String,
    req_target: &String,
    body_len: usize,
) -> (r: Vec<(String, String)>)
    requires
        host_to_replace@.len() > 0,
    ensures
        r@.len() > 0,
        headers_view(r@.subrange(0, r@.len() - 1)) == rebuilt_headers(
            headers_view(headers@),
            host_to_replace@,
            req_target@,
        ),
        r@[r@.len() - 1].0@ == "content-length"@,
        r@[r@.len() - 1].1@ == dec_digits(body_len as nat),
{
    let ghost w = headers_view(headers@);
    let host = str_to_chars(host_to_replace.as_str());
    let target = str_to_chars(req_target.as_str());
    let name_cl = String::from_str("content-length");
    let name_te = String::from_str("transfer-encoding");
    let mut out: Vec<(String, String)> = Vec::new();
    let mut i: usize = 0;
    proof {
        assert(w.subrange(0, w.len() as int) =~= w);
        assert(headers_view(out@) + rebuilt_headers(w, host_to_replace@, req_target@)
            =~= rebuilt_headers(w, host_to_replace@, req_target@));
    }
    while i < headers.len()
        invariant
            0 <= i <= headers@.len(),
            w == headers_view(headers@),
            w.len() == headers@.len(),
            host@ == host_to_replace@,
            target@ == req_target@,
            host@.len() > 0,
            name_cl@ == "content-length"@,
            name_te@ == "transfer-encoding"@,
            rebuilt_headers(w, host_to_replace@, req_target@) == headers_view(out@)
                + rebuilt_headers(
                w.subrange(i as int, w.len() as int),
                host_to_replace@,
                req_target@,
            ),
        decreases headers@.len() - i,
    {
        let ghost suf = w.subrange(i as int, w.len() as int);
        proof {
            assert(w[i as int] == (headers@[i as int].0@, headers@[i as int].1@));
            assert(suf[0] == w[i as int]);
            assert(suf.subrange(1, suf.len() as int) =~= w.subrange(i as int + 1, w.len() as int));
        }
        if !string_eq(&headers[i].0, &name_cl) && !string_eq(&headers[i].0, &name_te) {
            proof {
                reveal_strlit("content-length");
                reveal_strlit("transfer-encoding");
            }
            let value = str_to_chars(headers[i].1.as_str());
            let replaced = replace_all_chars(&value, &host, &target);
            let ghost before = headers_view(out@);
            out.push((headers[i].0.clone(), chars_to_string(&replaced)));
            proof {
                assert(suf[0].0 != "content-length"@ && suf[0].0 != "transfer-encoding"@);
                assert(rebuilt_headers(suf, host_to_replace@, req_target@) == seq![
                    (suf[0].0, replace_all(suf[0].1, host_to_replace@, req_target@)),
                ] + rebuilt_headers(
                    suf.subrange(1, suf.len() as int),
                    host_to_replace@,
                    req_target@,
                ));
                assert(headers_view(out@) =~= before.push(
                    (w[i as int].0, replace_all(w[i as int].1, host_to_replace@, req_target@)),
                ));
                assert(headers_view(out@) + rebuilt_headers(
                    w.subrange(i as int + 1, w.len() as int),
                    host_to_replace@,
                    req_target@,
                ) =~= rebuilt_headers(w, host_to_replace@, req_target@));
            }
        } else {
            proof {
                reveal_strlit("content-length");
                reveal_strlit("transfer-encoding");
            }
        }
        i = i + 1;
    }
    proof {
        assert(w.subrange(i as int, w.len() as int) =~= Seq::<(Seq<char>, Seq<char>)>::empty());
        assert(headers_view(out@) + Seq::<(Seq<char>, Seq<char>)>::empty() =~= headers_view(
            out@,
        ));
    }
    let ghost done = headers_view(out@);
    let len_chars = dec_of(body_len);
    out.push((String::from_str("content-length"), chars_to_string(&len_chars)));
    proof {
        assert(headers_view(out@).subrange(0, headers_view(out@).len() - 1) =~= done);
        assert(out@.subrange(0, out@.len() - 1).map_values(|h: (String, String)| (h.0@, h.1@))
            =~= done);
    }
    out
}

} // verus!
