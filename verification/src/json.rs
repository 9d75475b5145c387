//! The crate's own JSON codec.
//!
//! The proxy's wire payloads (the tracking parameter, the posted loader
//! configuration, every diagnostic dump) are JSON documents framed and checked
//! here, character by character. Object members keep their textual order and
//! numbers keep their lexeme, so rendering is deterministic.
//!
//! The accepted grammar is standard JSON: `\u` escapes (surrogate pairs
//! decode to one scalar; a lone surrogate is malformed), strict number syntax
//! (the lexeme is kept and re-emitted verbatim), no raw control characters
//! inside strings, and no object that names a member twice. The renderer
//! escapes control characters, so rendered output parses back.

use vstd::prelude::*;
use crate::text::{str_to_chars, chars_to_string, extend_chars};

verus! {

/// Ghost mirror of a JSON document; all contracts speak in terms of it.
pub enum JsonV {
    Null,
    Bool(bool),
    Num(Seq<char>),
    Str(Seq<char>),
    Arr(Seq<JsonV>),
    Obj(Seq<(Seq<char>, JsonV)>),
}

/// A JSON document with insertion-ordered object members.
pub enum Json {
    Null,
    Bool(bool),
    Num(Vec<char>),
    Str(Vec<char>),
    Arr(Vec<Json>),
    Obj(Vec<(Vec<char>, Json)>),
}

/// The ghost document that a `Json` value stands for.
pub open spec fn jview(j: Json) -> JsonV
    decreases j,
{
    match j {
        Json::Null => JsonV::Null,
        Json::Bool(b) => JsonV::Bool(b),
        Json::Num(s) => JsonV::Num(s@),
        Json::Str(s) => JsonV::Str(s@),
        Json::Arr(v) => JsonV::Arr(jview_seq(v@)),
        Json::Obj(v) => JsonV::Obj(jview_members(v@)),
    }
}

pub open spec fn jview_seq(s: Seq<Json>) -> Seq<JsonV>
    decreases s,
{
    if s.len() == 0 {
        Seq::empty()
    } else {
        seq![jview(s[0])] + jview_seq(s.subrange(1, s.len() as int))
    }
}

pub open spec fn jview_members(s: Seq<(Vec<char>, Json)>) -> Seq<(Seq<char>, JsonV)>
    decreases s,
{
    if s.len() == 0 {
        Seq::empty()
    } else {
        seq![(s[0].0@, jview(s[0].1))] + jview_members(s.subrange(1, s.len() as int))
    }
}

pub proof fn lemma_jview_seq_push(s: Seq<Json>, j: Json)
    ensures
        jview_seq(s.push(j)) == jview_seq(s) + seq![jview(j)],
    decreases s.len(),
{
    let t = s.push(j);
    if s.len() == 0 {
        assert(t[0] == j);
        assert(t.subrange(1, t.len() as int) =~= Seq::<Json>::empty());
        assert(jview_seq(t.subrange(1, t.len() as int)) == Seq::<JsonV>::empty());
        assert(jview_seq(t) =~= jview_seq(s) + seq![jview(j)]);
    } else {
        assert(t[0] == s[0]);
        assert(t.subrange(1, t.len() as int) =~= s.subrange(1, s.len() as int).push(j));
        lemma_jview_seq_push(s.subrange(1, s.len() as int), j);
        assert(jview_seq(t) == seq![jview(t[0])] + jview_seq(t.subrange(1, t.len() as int)));
        assert(jview_seq(t) =~= jview_seq(s) + seq![jview(j)]);
    }
}

pub proof fn lemma_jview_members_push(s: Seq<(Vec<char>, Json)>, k: Vec<char>, j: Json)
    ensures
        jview_members(s.push((k, j))) == jview_members(s) + seq![(k@, jview(j))],
    decreases s.len(),
{
    let t = s.push((k, j));
    if s.len() == 0 {
        assert(t[0] == (k, j));
        assert(t.subrange(1, t.len() as int) =~= Seq::<(Vec<char>, Json)>::empty());
        assert(jview_members(t.subrange(1, t.len() as int)) == Seq::<(Seq<char>, JsonV)>::empty());
        assert(jview_members(t) =~= jview_members(s) + seq![(k@, jview(j))]);
    } else {
        assert(t[0] == s[0]);
        assert(t.subrange(1, t.len() as int) =~= s.subrange(1, s.len() as int).push((k, j)));
        lemma_jview_members_push(s.subrange(1, s.len() as int), k, j);
        assert(jview_members(t) == seq![(t[0].0@, jview(t[0].1))] + jview_members(
            t.subrange(1, t.len() as int),
        ));
        assert(jview_members(t) =~= jview_members(s) + seq![(k@, jview(j))]);
    }
}

// ------------------------------------------------------------------
// Rendering
// ------------------------------------------------------------------

/// The character for one hexadecimal digit value.
pub open spec fn hex_digit_char(n: int) -> char {
    if n == 0 {
        '0'
    } else if n == 1 {
        '1'
    } else if n == 2 {
        '2'
    } else if n == 3 {
        '3'
    } else if n == 4 {
        '4'
    } else if n == 5 {
        '5'
    } else if n == 6 {
        '6'
    } else if n == 7 {
        '7'
    } else if n == 8 {
        '8'
    } else if n == 9 {
        '9'
    } else if n == 10 {
        'a'
    } else if n == 11 {
        'b'
    } else if n == 12 {
        'c'
    } else if n == 13 {
        'd'
    } else if n == 14 {
        'e'
    } else {
        'f'
    }
}

/// How one character is written inside a JSON string literal: the named
/// escapes, `\u00XX` for the other control characters, the character itself
/// otherwise.
pub open spec fn esc_char(c: char) -> Seq<char> {
    if c == '"' {
        seq!['\\', '"']
    } else if c == '\\' {
        seq!['\\', '\\']
    } else if c == '\n' {
        seq!['\\', 'n']
    } else if c == '\t' {
        seq!['\\', 't']
    } else if c == '\r' {
        seq!['\\', 'r']
    } else if c == '\u{0008}' {
        seq!['\\', 'b']
    } else if c == '\u{000C}' {
        seq!['\\', 'f']
    } else if (c as u32) < 32 {
        seq![
            '\\',
            'u',
            '0',
            '0',
            hex_digit_char(c as u32 as int / 16),
            hex_digit_char(c as u32 as int % 16),
        ]
    } else {
        seq![c]
    }
}

pub open spec fn esc_str(s: Seq<char>) -> Seq<char>
    decreases s.len(),
{
    if s.len() == 0 {
        Seq::empty()
    } else {
        esc_char(s[0]) + esc_str(s.subrange(1, s.len() as int))
    }
}

pub proof fn lemma_esc_str_push(s: Seq<char>, c: char)
    ensures
        esc_str(s.push(c)) == esc_str(s) + esc_char(c),
    decreases s.len(),
{
    let t = s.push(c);
    if s.len() == 0 {
        assert(t[0] == c);
        assert(t.subrange(1, t.len() as int) =~= Seq::<char>::empty());
        assert(esc_str(t.subrange(1, t.len() as int)) == Seq::<char>::empty());
        assert(esc_str(t) =~= esc_str(s) + esc_char(c));
    } else {
        assert(t[0] == s[0]);
        assert(t.subrange(1, t.len() as int) =~= s.subrange(1, s.len() as int).push(c));
        lemma_esc_str_push(s.subrange(1, s.len() as int), c);
        assert(esc_str(t) =~= esc_str(s) + esc_char(c));
    }
}

pub open spec fn spaces(n: nat) -> Seq<char>
    decreases n,
{
    if n == 0 {
        Seq::empty()
    } else {
        spaces((n - 1) as nat).push(' ')
    }
}

/// Indentation step: two more spaces per level, capped so that deeply nested
/// documents still render (deterministically) without the indent growing
/// without bound.
pub open spec fn bump(ind: nat) -> nat {
    if ind <= 10000 {
        (ind + 2) as nat
    } else {
        ind
    }
}

/// The pretty rendering of a document at indentation `ind`: two-space
/// indented, with object members and array items one per line.
pub open spec fn render(j: JsonV, ind: nat) -> Seq<char>
    decreases j,
{
    match j {
        JsonV::Null => "null"@,
        JsonV::Bool(b) => if b {
            "true"@
        } else {
            "false"@
        },
        JsonV::Num(s) => s,
        JsonV::Str(s) => seq!['"'] + esc_str(s) + seq!['"'],
        JsonV::Arr(items) => if items.len() == 0 {
            "[]"@
        } else {
            seq!['['] + render_items(items, bump(ind)) + seq!['\n'] + spaces(ind) + seq![']']
        },
        JsonV::Obj(ms) => if ms.len() == 0 {
            "{}"@
        } else {
            seq!['{'] + render_members(ms, bump(ind)) + seq!['\n'] + spaces(ind) + seq!['}']
        },
    }
}

pub open spec fn render_items(items: Seq<JsonV>, ind: nat) -> Seq<char>
    decreases items,
{
    if items.len() == 0 {
        Seq::empty()
    } else {
        let head = seq!['\n'] + spaces(ind) + render(items[0], ind);
        if items.len() == 1 {
            head
        } else {
            head + seq![','] + render_items(items.subrange(1, items.len() as int), ind)
        }
    }
}

pub open spec fn render_members(ms: Seq<(Seq<char>, JsonV)>, ind: nat) -> Seq<char>
    decreases ms,
{
    if ms.len() == 0 {
        Seq::empty()
    } else {
        let head = seq!['\n'] + spaces(ind) + seq!['"'] + esc_str(ms[0].0) + seq!['"', ':', ' ']
            + render(ms[0].1, ind);
        if ms.len() == 1 {
            head
        } else {
            head + seq![','] + render_members(ms.subrange(1, ms.len() as int), ind)
        }
    }
}

pub proof fn lemma_render_items_push(s: Seq<JsonV>, x: JsonV, ind: nat)
    ensures
        render_items(s.push(x), ind) == if s.len() == 0 {
            seq!['\n'] + spaces(ind) + render(x, ind)
        } else {
            render_items(s, ind) + seq![','] + seq!['\n'] + spaces(ind) + render(x, ind)
        },
    decreases s.len(),
{
    let t = s.push(x);
    if s.len() == 0 {
        assert(t[0] == x);
        assert(render_items(t, ind) =~= seq!['\n'] + spaces(ind) + render(x, ind));
    } else {
        assert(t[0] == s[0]);
        assert(t.subrange(1, t.len() as int) =~= s.subrange(1, s.len() as int).push(x));
        lemma_render_items_push(s.subrange(1, s.len() as int), x, ind);
        if s.len() == 1 {
            assert(s.subrange(1, s.len() as int) =~= Seq::<JsonV>::empty());
            assert(render_items(t, ind) =~= render_items(s, ind) + seq![','] + seq!['\n']
                + spaces(ind) + render(x, ind));
        } else {
            assert(render_items(t, ind) =~= render_items(s, ind) + seq![','] + seq!['\n']
                + spaces(ind) + render(x, ind));
        }
    }
}

pub proof fn lemma_render_members_push(s: Seq<(Seq<char>, JsonV)>, x: (Seq<char>, JsonV), ind: nat)
    ensures
        render_members(s.push(x), ind) == if s.len() == 0 {
            seq!['\n'] + spaces(ind) + seq!['"'] + esc_str(x.0) + seq!['"', ':', ' '] + render(
                x.1,
                ind,
            )
        } else {
            render_members(s, ind) + seq![','] + seq!['\n'] + spaces(ind) + seq!['"'] + esc_str(
                x.0,
            ) + seq!['"', ':', ' '] + render(x.1, ind)
        },
    decreases s.len(),
{
    let t = s.push(x);
    if s.len() == 0 {
        assert(t[0] == x);
        assert(render_members(t, ind) =~= seq!['\n'] + spaces(ind) + seq!['"'] + esc_str(x.0)
            + seq!['"', ':', ' '] + render(x.1, ind));
    } else {
        assert(t[0] == s[0]);
        assert(t.subrange(1, t.len() as int) =~= s.subrange(1, s.len() as int).push(x));
        lemma_render_members_push(s.subrange(1, s.len() as int), x, ind);
        if s.len() == 1 {
            assert(s.subrange(1, s.len() as int) =~= Seq::<(Seq<char>, JsonV)>::empty());
        }
        assert(render_members(t, ind) =~= render_members(s, ind) + seq![','] + seq!['\n'] + spaces(
            ind,
        ) + seq!['"'] + esc_str(x.0) + seq!['"', ':', ' '] + render(x.1, ind));
    }
}

pub proof fn lemma_jview_seq_index(s: Seq<Json>, i: int)
    requires
        0 <= i < s.len(),
    ensures
        jview_seq(s).len() == s.len(),
        jview_seq(s)[i] == jview(s[i]),
    decreases s.len(),
{
    if s.len() > 0 {
        if i > 0 {
            lemma_jview_seq_index(s.subrange(1, s.len() as int), i - 1);
        } else {
            lemma_jview_seq_len(s.subrange(1, s.len() as int));
        }
    }
}

pub proof fn lemma_jview_seq_len(s: Seq<Json>)
    ensures
        jview_seq(s).len() == s.len(),
    decreases s.len(),
{
    if s.len() > 0 {
        lemma_jview_seq_len(s.subrange(1, s.len() as int));
    }
}

pub proof fn lemma_jview_members_len(s: Seq<(Vec<char>, Json)>)
    ensures
        jview_members(s).len() == s.len(),
    decreases s.len(),
{
    if s.len() > 0 {
        lemma_jview_members_len(s.subrange(1, s.len() as int));
    }
}

/// Append one escaped character to the output.
fn push_escaped(out: &mut Vec<char>, c: char)
    ensures
        final(out)@ == old(out)@ + esc_char(c),
{
    if c == '"' {
        out.push('\\');
        out.push('"');
    } else if c == '\\' {
        out.push('\\');
        out.push('\\');
    } else if c == '\n' {
        out.push('\\');
        out.push('n');
    } else if c == '\t' {
        out.push('\\');
        out.push('t');
    } else if c == '\r' {
        out.push('\\');
        out.push('r');
    } else if c == '\u{0008}' {
        out.push('\\');
        out.push('b');
    } else if c == '\u{000C}' {
        out.push('\\');
        out.push('f');
    } else {
        let u = c as u32;
        if u < 32 {
            out.push('\\');
            out.push('u');
            out.push('0');
            out.push('0');
            out.push(hex_digit_of(u / 16));
            out.push(hex_digit_of(u % 16));
        } else {
            out.push(c);
        }
    }
    proof {
        assert(final(out)@ =~= old(out)@ + esc_char(c));
    }
}

/// The character for one hexadecimal digit value, executable form.
fn hex_digit_of(n: u32) -> (r: char)
    requires
        n < 16,
    ensures
        r == hex_digit_char(n as int),
{
    if n == 0 {
        '0'
    } else if n == 1 {
        '1'
    } else if n == 2 {
        '2'
    } else if n == 3 {
        '3'
    } else if n == 4 {
        '4'
    } else if n == 5 {
        '5'
    } else if n == 6 {
        '6'
    } else if n == 7 {
        '7'
    } else if n == 8 {
        '8'
    } else if n == 9 {
        '9'
    } else if n == 10 {
        'a'
    } else if n == 11 {
        'b'
    } else if n == 12 {
        'c'
    } else if n == 13 {
        'd'
    } else if n == 14 {
        'e'
    } else {
        'f'
    }
}

/// Append `n` spaces to the output.
fn push_spaces(out: &mut Vec<char>, n: usize)
    ensures
        final(out)@ == old(out)@ + spaces(n as nat),
{
    let mut i: usize = 0;
    while i < n
        invariant
            0 <= i <= n,
            out@ == old(out)@ + spaces(i as nat),
        decreases n - i,
    {
        out.push(' ');
        i = i + 1;
        proof {
            assert(out@ =~= old(out)@ + spaces(i as nat));
        }
    }
}

/// Append the quoted, escaped form of `s` to the output.
fn push_quoted(out: &mut Vec<char>, s: &Vec<char>)
    ensures
        final(out)@ == old(out)@ + seq!['"'] + esc_str(s@) + seq!['"'],
{
    out.push('"');
    let mut i: usize = 0;
    while i < s.len()
        invariant
            0 <= i <= s@.len(),
            out@ == old(out)@ + seq!['"'] + esc_str(s@.subrange(0, i as int)),
        decreases s@.len() - i,
    {
        proof {
            assert(s@.subrange(0, i as int).push(s@[i as int]) =~= s@.subrange(0, i as int + 1));
            lemma_esc_str_push(s@.subrange(0, i as int), s@[i as int]);
        }
        push_escaped(out, s[i]);
        i = i + 1;
        proof {
            assert(out@ =~= old(out)@ + seq!['"'] + esc_str(s@.subrange(0, i as int)));
        }
    }
    proof {
        assert(s@.subrange(0, s@.len() as int) =~= s@);
    }
    out.push('"');
    proof {
        assert(final(out)@ =~= old(out)@ + seq!['"'] + esc_str(s@) + seq!['"']);
    }
}

/// Append the pretty rendering of `j` at indentation `ind` to the output.
#[verifier::loop_isolation(false)]
#[verifier::rlimit(100)]
pub fn write_json(j: &Json, ind: usize, out: &mut Vec<char>)
    requires
        ind <= 10002,
    ensures
        final(out)@ == old(out)@ + render(jview(*j), ind as nat),
    decreases *j,
{
    match j {
        Json::Null => {
            let t = str_to_chars("null");
            extend_chars(out, &t);
        },
        Json::Bool(b) => {
            if *b {
                let t = str_to_chars("true");
                extend_chars(out, &t);
            } else {
                let t = str_to_chars("false");
                extend_chars(out, &t);
            }
        },
        Json::Num(s) => {
            extend_chars(out, s);
        },
        Json::Str(s) => {
            push_quoted(out, s);
            proof {
                assert(final(out)@ =~= old(out)@ + render(jview(*j), ind as nat));
            }
        },
        Json::Arr(v) => {
            if v.len() == 0 {
                let t = str_to_chars("[]");
                extend_chars(out, &t);
                proof {
                    assert(jview_seq(v@).len() == 0);
                }
            } else {
                let inner = if ind <= 10000 {
                    ind + 2
                } else {
                    ind
                };
                out.push('[');
                proof {
                    assert(decreases_to!(*j => v@)) by {
                        assert(*j == Json::Arr(*v));
                        assert(j->Arr_0 == *v);
                        assert(decreases_to!(*j => j->Arr_0));
                        assert(decreases_to!(*v => v@));
                    }
                    lemma_jview_seq_len(v@);
                }
                write_items(v, inner, out);
                out.push('\n');
                push_spaces(out, ind);
                out.push(']');
                proof {
                    assert(final(out)@ =~= old(out)@ + render(jview(*j), ind as nat));
                }
            }
        },
        Json::Obj(ms) => {
            if ms.len() == 0 {
                let t = str_to_chars("{}");
                extend_chars(out, &t);
                proof {
                    assert(jview_members(ms@).len() == 0);
                }
            } else {
                let inner = if ind <= 10000 {
                    ind + 2
                } else {
                    ind
                };
                out.push('{');
                proof {
                    assert(decreases_to!(*j => ms@)) by {
                        assert(*j == Json::Obj(*ms));
                        assert(j->Obj_0 == *ms);
                        assert(decreases_to!(*j => j->Obj_0));
                        assert(decreases_to!(*ms => ms@));
                    }
                    lemma_jview_members_len(ms@);
                }
                write_members(ms, inner, out);
                out.push('\n');
                push_spaces(out, ind);
                out.push('}');
                proof {
                    assert(final(out)@ =~= old(out)@ + render(jview(*j), ind as nat));
                }
            }
        },
    }
}

/// Append the rendering of the items of a nonempty array.
#[verifier::loop_isolation(false)]
fn write_items(v: &Vec<Json>, inner: usize, out: &mut Vec<char>)
    requires
        0 < v@.len(),
        inner <= 10002,
    ensures
        final(out)@ == old(out)@ + render_items(jview_seq(v@), inner as nat),
    decreases v@,
{
    let mut i: usize = 0;
    while i < v.len()
        invariant
            0 <= i <= v@.len(),
            i == 0 ==> out@ == old(out)@,
            i > 0 ==> out@ == old(out)@ + render_items(
                jview_seq(v@).subrange(0, i as int),
                inner as nat,
            ),
        decreases v@.len() - i,
    {
        proof {
            lemma_jview_seq_len(v@);
        }
        if i > 0 {
            out.push(',');
        }
        out.push('\n');
        push_spaces(out, inner);
        let ghost pre = jview_seq(v@).subrange(0, i as int);
        proof {
            lemma_jview_seq_index(v@, i as int);
            assert(pre.push(jview_seq(v@)[i as int]) =~= jview_seq(v@).subrange(
                0,
                i as int + 1,
            ));
            lemma_render_items_push(pre, jview_seq(v@)[i as int], inner as nat);
            assert(decreases_to!(v@ => v@[i as int]));
        }
        write_json(&v[i], inner, out);
        i = i + 1;
        proof {
            assert(out@ =~= old(out)@ + render_items(
                jview_seq(v@).subrange(0, i as int),
                inner as nat,
            ));
        }
    }
    proof {
        lemma_jview_seq_len(v@);
        assert(jview_seq(v@).subrange(0, v@.len() as int) =~= jview_seq(v@));
    }
}

/// Append the rendering of the members of a nonempty object.
#[verifier::loop_isolation(false)]
#[verifier::rlimit(100)]
fn write_members(ms: &Vec<(Vec<char>, Json)>, inner: usize, out: &mut Vec<char>)
    requires
        0 < ms@.len(),
        inner <= 10002,
    ensures
        final(out)@ == old(out)@ + render_members(jview_members(ms@), inner as nat),
    decreases ms@,
{
    let mut i: usize = 0;
    while i < ms.len()
        invariant
            0 <= i <= ms@.len(),
            i == 0 ==> out@ == old(out)@,
            i > 0 ==> out@ == old(out)@ + render_members(
                jview_members(ms@).subrange(0, i as int),
                inner as nat,
            ),
        decreases ms@.len() - i,
    {
        proof {
            lemma_jview_members_len(ms@);
        }
        if i > 0 {
            out.push(',');
        }
        out.push('\n');
        push_spaces(out, inner);
        let ghost pre = jview_members(ms@).subrange(0, i as int);
        proof {
            lemma_jview_members_index(ms@, i as int);
            assert(pre.push(jview_members(ms@)[i as int]) =~= jview_members(ms@).subrange(
                0,
                i as int + 1,
            ));
            lemma_render_members_push(pre, jview_members(ms@)[i as int], inner as nat);
        }
        push_quoted(out, &ms[i].0);
        out.push(':');
        out.push(' ');
        proof {
            assert(decreases_to!(ms@ => ms@[i as int].1)) by {
                assert(decreases_to!(ms@ => ms@[i as int]));
                assert(decreases_to!(ms@[i as int] => ms@[i as int].1));
            }
        }
        write_json(&ms[i].1, inner, out);
        i = i + 1;
        proof {
            assert(out@ =~= old(out)@ + render_members(
                jview_members(ms@).subrange(0, i as int),
                inner as nat,
            ));
        }
    }
    proof {
        lemma_jview_members_len(ms@);
        assert(jview_members(ms@).subrange(0, ms@.len() as int) =~= jview_members(ms@));
    }
}

pub proof fn lemma_jview_members_index(s: Seq<(Vec<char>, Json)>, i: int)
    requires
        0 <= i < s.len(),
    ensures
        jview_members(s).len() == s.len(),
        jview_members(s)[i] == (s[i].0@, jview(s[i].1)),
    decreases s.len(),
{
    if s.len() > 0 {
        if i > 0 {
            lemma_jview_members_index(s.subrange(1, s.len() as int), i - 1);
        } else {
            lemma_jview_members_len(s.subrange(1, s.len() as int));
        }
    }
}

// ------------------------------------------------------------------
// Building and reading documents
// ------------------------------------------------------------------

/// Append one member to an object under construction.
pub fn push_member(v: &mut Vec<(Vec<char>, Json)>, key: &str, val: Json)
    ensures
        jview_members(final(v)@) == jview_members(old(v)@) + seq![(key@, jview(val))],
{
    let k = str_to_chars(key);
    proof {
        lemma_jview_members_push(v@, k, val);
    }
    v.push((k, val));
}

/// Append one item to an array under construction.
pub fn push_item(v: &mut Vec<Json>, val: Json)
    ensures
        jview_seq(final(v)@) == jview_seq(old(v)@) + seq![jview(val)],
{
    proof {
        lemma_jview_seq_push(v@, val);
    }
    v.push(val);
}

/// The value of the first member named `k`, if any.
pub open spec fn jget(ms: Seq<(Seq<char>, JsonV)>, k: Seq<char>) -> Option<JsonV>
    decreases ms.len(),
{
    if ms.len() == 0 {
        None
    } else if ms[0].0 == k {
        Some(ms[0].1)
    } else {
        jget(ms.subrange(1, ms.len() as int), k)
    }
}

/// Character-for-character equality of two character vectors.
pub fn chars_eq(a: &Vec<char>, b: &Vec<char>) -> (r: bool)
    ensures
        r <==> a@ == b@,
{
    if a.len() != b.len() {
        proof {
            assert(a@ != b@);
        }
        return false;
    }
    let mut i: usize = 0;
    while i < a.len()
        invariant
            a@.len() == b@.len(),
            0 <= i <= a@.len(),
            forall|k: int| 0 <= k < i ==> a@[k] == b@[k],
        decreases a@.len() - i,
    {
        if a[i] != b[i] {
            proof {
                assert(a@[i as int] != b@[i as int]);
            }
            return false;
        }
        i = i + 1;
    }
    proof {
        assert(a@ =~= b@);
    }
    true
}

/// Look a member up by name, executable form.
pub fn get_member<'a>(ms: &'a Vec<(Vec<char>, Json)>, key: &Vec<char>) -> (r: Option<&'a Json>)
    ensures
        match r {
            Some(v) => jget(jview_members(ms@), key@) == Some(jview(*v)),
            None => jget(jview_members(ms@), key@) is None,
        },
{
    let mut i: usize = 0;
    proof {
        assert(ms@.subrange(0, ms@.len() as int) =~= ms@);
    }
    while i < ms.len()
        invariant
            0 <= i <= ms@.len(),
            jget(jview_members(ms@), key@) == jget(
                jview_members(ms@.subrange(i as int, ms@.len() as int)),
                key@,
            ),
        decreases ms@.len() - i,
    {
        let ghost suf = ms@.subrange(i as int, ms@.len() as int);
        proof {
            assert(suf[0] == ms@[i as int]);
            assert(suf.subrange(1, suf.len() as int) =~= ms@.subrange(
                i as int + 1,
                ms@.len() as int,
            ));
            assert(jview_members(suf)[0] == (suf[0].0@, jview(suf[0].1)));
            assert(jview_members(suf).subrange(1, jview_members(suf).len() as int)
                =~= jview_members(suf.subrange(1, suf.len() as int))) by {
                lemma_jview_members_len(suf);
                lemma_jview_members_len(suf.subrange(1, suf.len() as int));
                assert forall|k: int|
                    0 <= k < jview_members(suf).len() - 1 implies jview_members(suf).subrange(
                    1,
                    jview_members(suf).len() as int,
                )[k] == jview_members(suf.subrange(1, suf.len() as int))[k] by {
                    lemma_jview_members_index(suf, k + 1);
                    lemma_jview_members_index(suf.subrange(1, suf.len() as int), k);
                }
            }
        }
        if chars_eq(&ms[i].0, key) {
            return Some(&ms[i].1);
        }
        i = i + 1;
    }
    proof {
        assert(ms@.subrange(i as int, ms@.len() as int) =~= Seq::<(Vec<char>, Json)>::empty());
        assert(jview_members(Seq::<(Vec<char>, Json)>::empty()) =~= Seq::<(
            Seq<char>,
            JsonV,
        )>::empty());
    }
    None
}

/// The pretty text of a complete document.
pub fn to_text(j: &Json) -> (r: String)
    ensures
        r@ == render(jview(*j), 0),
{
    let mut out: Vec<char> = Vec::new();
    write_json(j, 0, &mut out);
    chars_to_string(&out)
}

// ------------------------------------------------------------------
// Parsing
// ------------------------------------------------------------------

pub open spec fn is_ws(c: char) -> bool {
    c == ' ' || c == '\t' || c == '\n' || c == '\r'
}

pub open spec fn is_digit(c: char) -> bool {
    48 <= c as u32 <= 57
}

/// Index just after the run of decimal digits starting at `i`.
pub open spec fn digits_end(s: Seq<char>, i: int) -> int
    decreases s.len() - i,
{
    if 0 <= i < s.len() && is_digit(s[i]) {
        digits_end(s, i + 1)
    } else {
        i
    }
}

/// The end of the JSON number starting at `i`, if one starts there: an
/// optional minus sign, an integer part without a leading zero, an optional
/// fraction, an optional exponent.
pub open spec fn p_number(s: Seq<char>, i: int) -> Option<int> {
    let a = if 0 <= i < s.len() && s[i] == '-' {
        i + 1
    } else {
        i
    };
    if !(0 <= a < s.len() && is_digit(s[a])) {
        None
    } else {
        let b = if s[a] == '0' {
            a + 1
        } else {
            digits_end(s, a)
        };
        let c = if b < s.len() && s[b] == '.' {
            if b + 1 < s.len() && is_digit(s[b + 1]) {
                digits_end(s, b + 1)
            } else {
                -1
            }
        } else {
            b
        };
        if c < 0 {
            None
        } else {
            let d = if c < s.len() && (s[c] == 'e' || s[c] == 'E') {
                let e0 = if c + 1 < s.len() && (s[c + 1] == '+' || s[c + 1] == '-') {
                    c + 2
                } else {
                    c + 1
                };
                if e0 < s.len() && is_digit(s[e0]) {
                    digits_end(s, e0)
                } else {
                    -1
                }
            } else {
                c
            };
            if d < 0 {
                None
            } else {
                Some(d)
            }
        }
    }
}

/// Index of the first non-whitespace character at or after `i`.
pub open spec fn p_ws(s: Seq<char>, i: int) -> int
    decreases s.len() - i,
{
    if 0 <= i < s.len() && is_ws(s[i]) {
        p_ws(s, i + 1)
    } else {
        i
    }
}

/// The value of one hexadecimal digit, if the character is one.
pub open spec fn hex_val(c: char) -> Option<int> {
    let u = c as u32;
    if 48 <= u <= 57 {
        Some(u as int - 48)
    } else if 97 <= u <= 102 {
        Some(u as int - 87)
    } else if 65 <= u <= 70 {
        Some(u as int - 55)
    } else {
        None
    }
}

/// The value of the four hexadecimal digits starting at `i`, if all four are
/// there and are digits.
pub open spec fn hex4(s: Seq<char>, i: int) -> Option<int> {
    if 0 <= i && i + 4 <= s.len() {
        match (hex_val(s[i]), hex_val(s[i + 1]), hex_val(s[i + 2]), hex_val(s[i + 3])) {
            (Some(a), Some(b), Some(c), Some(d)) => Some(a * 4096 + b * 256 + c * 16 + d),
            _ => None,
        }
    } else {
        None
    }
}

/// What a backslash escape stands for; `None` for an unsupported escape.
pub open spec fn esc_code(c: char) -> Option<char> {
    if c == '"' {
        Some('"')
    } else if c == '\\' {
        Some('\\')
    } else if c == '/' {
        Some('/')
    } else if c == 'n' {
        Some('\n')
    } else if c == 't' {
        Some('\t')
    } else if c == 'r' {
        Some('\r')
    } else if c == 'b' {
        Some('\u{0008}')
    } else if c == 'f' {
        Some('\u{000C}')
    } else {
        None
    }
}

/// Parse a string body starting just after the opening quote; yields the
/// decoded characters and the index just after the closing quote. A `\u`
/// escape names a code unit; a high surrogate must be followed by a `\u` low
/// surrogate and the pair decodes to one scalar, a lone surrogate is
/// malformed.
pub open spec fn p_string(s: Seq<char>, i: int) -> Option<(Seq<char>, int)>
    decreases s.len() - i,
{
    if i < 0 || i >= s.len() {
        None
    } else if s[i] == '"' {
        Some((Seq::empty(), i + 1))
    } else if s[i] == '\\' {
        if i + 1 < s.len() {
            if s[i + 1] == 'u' {
                match hex4(s, i + 2) {
                    Some(code) => {
                        if 0xD800 <= code <= 0xDBFF {
                            if i + 7 < s.len() && s[i + 6] == '\\' && s[i + 7] == 'u' {
                                match hex4(s, i + 8) {
                                    Some(low) => {
                                        if 0xDC00 <= low <= 0xDFFF {
                                            let cp = 0x10000 + (code - 0xD800) * 0x400 + (low
                                                - 0xDC00);
                                            match p_string(s, i + 12) {
                                                Some(p) => Some((seq![cp as char] + p.0, p.1)),
                                                None => None,
                                            }
                                        } else {
                                            None
                                        }
                                    },
                                    None => None,
                                }
                            } else {
                                None
                            }
                        } else if 0xDC00 <= code <= 0xDFFF {
                            None
                        } else {
                            match p_string(s, i + 6) {
                                Some(p) => Some((seq![code as char] + p.0, p.1)),
                                None => None,
                            }
                        }
                    },
                    None => None,
                }
            } else {
                match esc_code(s[i + 1]) {
                    Some(c) => match p_string(s, i + 2) {
                        Some(p) => Some((seq![c] + p.0, p.1)),
                        None => None,
                    },
                    None => None,
                }
            }
        } else {
            None
        }
    } else if (s[i] as u32) < 32 {
        None
    } else {
        match p_string(s, i + 1) {
            Some(p) => Some((seq![s[i]] + p.0, p.1)),
            None => None,
        }
    }
}

/// Parse one JSON value starting at `i` (leading whitespace allowed); the
/// fuel bounds the recursion and is never exhausted for fuel > remaining
/// input length.
pub open spec fn p_value(s: Seq<char>, i: int, fuel: nat) -> Option<(JsonV, int)>
    decreases fuel,
{
    if fuel == 0 {
        None
    } else {
        let j = p_ws(s, i);
        if !(0 <= j < s.len()) {
            None
        } else if s[j] == 'n' {
            if j + 4 <= s.len() && s[j + 1] == 'u' && s[j + 2] == 'l' && s[j + 3] == 'l' {
                Some((JsonV::Null, j + 4))
            } else {
                None
            }
        } else if s[j] == 't' {
            if j + 4 <= s.len() && s[j + 1] == 'r' && s[j + 2] == 'u' && s[j + 3] == 'e' {
                Some((JsonV::Bool(true), j + 4))
            } else {
                None
            }
        } else if s[j] == 'f' {
            if j + 5 <= s.len() && s[j + 1] == 'a' && s[j + 2] == 'l' && s[j + 3] == 's' && s[j
                + 4] == 'e' {
                Some((JsonV::Bool(false), j + 5))
            } else {
                None
            }
        } else if s[j] == '"' {
            match p_string(s, j + 1) {
                Some(p) => Some((JsonV::Str(p.0), p.1)),
                None => None,
            }
        } else if s[j] == '[' {
            let k = p_ws(s, j + 1);
            if 0 <= k < s.len() && s[k] == ']' {
                Some((JsonV::Arr(Seq::empty()), k + 1))
            } else {
                match p_items(s, j + 1, (fuel - 1) as nat) {
                    Some(p) => Some((JsonV::Arr(p.0), p.1)),
                    None => None,
                }
            }
        } else if s[j] == '{' {
            let k = p_ws(s, j + 1);
            if 0 <= k < s.len() && s[k] == '}' {
                Some((JsonV::Obj(Seq::empty()), k + 1))
            } else {
                match p_members(s, j + 1, (fuel - 1) as nat) {
                    Some(p) => Some((JsonV::Obj(p.0), p.1)),
                    None => None,
                }
            }
        } else if s[j] == '-' || is_digit(s[j]) {
            match p_number(s, j) {
                Some(e) => Some((JsonV::Num(s.subrange(j, e)), e)),
                None => None,
            }
        } else {
            None
        }
    }
}

/// Parse the comma-separated items of a nonempty array, up to and including
/// the closing bracket.
pub open spec fn p_items(s: Seq<char>, i: int, fuel: nat) -> Option<(Seq<JsonV>, int)>
    decreases fuel,
{
    if fuel == 0 {
        None
    } else {
        match p_value(s, i, (fuel - 1) as nat) {
            Some(p) => {
                let k = p_ws(s, p.1);
                if 0 <= k < s.len() && s[k] == ',' {
                    match p_items(s, k + 1, (fuel - 1) as nat) {
                        Some(q) => Some((seq![p.0] + q.0, q.1)),
                        None => None,
                    }
                } else if 0 <= k < s.len() && s[k] == ']' {
                    Some((seq![p.0], k + 1))
                } else {
                    None
                }
            },
            None => None,
        }
    }
}

/// Whether the member list already holds a member named `k`.
pub open spec fn has_key(ms: Seq<(Seq<char>, JsonV)>, k: Seq<char>) -> bool {
    exists|i: int| 0 <= i < ms.len() && ms[i].0 == k
}

/// Parse the members of a nonempty object, up to and including the closing
/// brace; an object that names a member twice is malformed.
pub open spec fn p_members(s: Seq<char>, i: int, fuel: nat) -> Option<
    (Seq<(Seq<char>, JsonV)>, int),
>
    decreases fuel,
{
    if fuel == 0 {
        None
    } else {
        let j = p_ws(s, i);
        if 0 <= j < s.len() && s[j] == '"' {
            match p_string(s, j + 1) {
                Some(kp) => {
                    let k = p_ws(s, kp.1);
                    if 0 <= k < s.len() && s[k] == ':' {
                        match p_value(s, k + 1, (fuel - 1) as nat) {
                            Some(vp) => {
                                let m = p_ws(s, vp.1);
                                if 0 <= m < s.len() && s[m] == ',' {
                                    match p_members(s, m + 1, (fuel - 1) as nat) {
                                        Some(q) => if has_key(q.0, kp.0) {
                                            None
                                        } else {
                                            Some((seq![(kp.0, vp.0)] + q.0, q.1))
                                        },
                                        None => None,
                                    }
                                } else if 0 <= m < s.len() && s[m] == '}' {
                                    Some((seq![(kp.0, vp.0)], m + 1))
                                } else {
                                    None
                                }
                            },
                            None => None,
                        }
                    } else {
                        None
                    }
                },
                None => None,
            }
        } else {
            None
        }
    }
}

/// The document denoted by a complete JSON text: one value with nothing but
/// whitespace around it; anything else is malformed.
pub open spec fn json_of(s: Seq<char>) -> Option<JsonV> {
    match p_value(s, 0, (s.len() + 1) as nat) {
        Some(p) => {
            if p_ws(s, p.1) == s.len() {
                Some(p.0)
            } else {
                None
            }
        },
        None => None,
    }
}

/// Skip whitespace, executable form.
fn skip_ws(s: &Vec<char>, i: usize) -> (r: usize)
    requires
        i <= s@.len(),
    ensures
        r as int == p_ws(s@, i as int),
        i <= r <= s@.len(),
{
    let mut j = i;
    while j < s.len() && (s[j] == ' ' || s[j] == '\t' || s[j] == '\n' || s[j] == '\r')
        invariant
            i <= j <= s@.len(),
            p_ws(s@, i as int) == p_ws(s@, j as int),
        decreases s@.len() - j,
    {
        j = j + 1;
    }
    j
}

/// Membership in the digit set, executable form.
fn is_digit_of(c: char) -> (r: bool)
    ensures
        r == is_digit(c),
{
    let u = c as u32;
    48 <= u && u <= 57
}

/// Find the end of a digit run, executable form.
fn digits_end_at(s: &Vec<char>, i: usize) -> (r: usize)
    requires
        i <= s@.len(),
    ensures
        r as int == digits_end(s@, i as int),
        i <= r <= s@.len(),
{
    let mut j = i;
    while j < s.len() && is_digit_of(s[j])
        invariant
            i <= j <= s@.len(),
            digits_end(s@, i as int) == digits_end(s@, j as int),
        decreases s@.len() - j,
    {
        j = j + 1;
    }
    j
}

/// Find the end of a JSON number, executable form.
fn parse_number(s: &Vec<char>, i: usize) -> (r: Option<usize>)
    requires
        i <= s@.len(),
    ensures
        match r {
            Some(e) => p_number(s@, i as int) == Some(e as int) && i <= e <= s@.len(),
            None => p_number(s@, i as int) is None,
        },
{
    let a = if i < s.len() && s[i] == '-' {
        i + 1
    } else {
        i
    };
    if !(a < s.len() && is_digit_of(s[a])) {
        return None;
    }
    let b = if s[a] == '0' {
        a + 1
    } else {
        digits_end_at(s, a)
    };
    let c = if b < s.len() && s[b] == '.' {
        if b + 1 < s.len() && is_digit_of(s[b + 1]) {
            digits_end_at(s, b + 1)
        } else {
            return None;
        }
    } else {
        b
    };
    if c < s.len() && (s[c] == 'e' || s[c] == 'E') {
        let e0 = if c + 1 < s.len() && (s[c + 1] == '+' || s[c + 1] == '-') {
            c + 2
        } else {
            c + 1
        };
        if e0 < s.len() && is_digit_of(s[e0]) {
            Some(digits_end_at(s, e0))
        } else {
            None
        }
    } else {
        Some(c)
    }
}

/// Relies on `char::from_u32`: it returns the character with that code point
/// exactly when the code is a Unicode scalar value (not a surrogate, at most
/// 0x10FFFF).
#[verifier::external_body]
fn char_of_code(u: u32) -> (r: Option<char>)
    ensures
        r is Some <==> (u < 0xD800 || (0xDFFF < u && u <= 0x10FFFF)),
        r is Some ==> r->0 == u as char,
{
    char::from_u32(u)
}

/// One hexadecimal digit, executable form.
fn hex_val_of(c: char) -> (r: Option<u32>)
    ensures
        match r {
            Some(v) => hex_val(c) == Some(v as int) && v < 16,
            None => hex_val(c) is None,
        },
{
    let u = c as u32;
    if 48 <= u && u <= 57 {
        Some(u - 48)
    } else if 97 <= u && u <= 102 {
        Some(u - 87)
    } else if 65 <= u && u <= 70 {
        Some(u - 55)
    } else {
        None
    }
}

/// Four hexadecimal digits, executable form.
fn hex4_at(s: &Vec<char>, i: usize) -> (r: Option<u32>)
    requires
        i <= s@.len(),
    ensures
        match r {
            Some(v) => hex4(s@, i as int) == Some(v as int) && v <= 0xFFFF,
            None => hex4(s@, i as int) is None,
        },
{
    if s.len() - i < 4 {
        return None;
    }
    let a = match hex_val_of(s[i]) {
        Some(v) => v,
        None => {
            return None;
        },
    };
    let b = match hex_val_of(s[i + 1]) {
        Some(v) => v,
        None => {
            return None;
        },
    };
    let c = match hex_val_of(s[i + 2]) {
        Some(v) => v,
        None => {
            return None;
        },
    };
    let d = match hex_val_of(s[i + 3]) {
        Some(v) => v,
        None => {
            return None;
        },
    };
    Some(a * 4096 + b * 256 + c * 16 + d)
}

/// Decode one escape character, executable form.
fn esc_code_of(c: char) -> (r: Option<char>)
    ensures
        r == esc_code(c),
{
    if c == '"' {
        Some('"')
    } else if c == '\\' {
        Some('\\')
    } else if c == '/' {
        Some('/')
    } else if c == 'n' {
        Some('\n')
    } else if c == 't' {
        Some('\t')
    } else if c == 'r' {
        Some('\r')
    } else if c == 'b' {
        Some('\u{0008}')
    } else if c == 'f' {
        Some('\u{000C}')
    } else {
        None
    }
}

/// Parse a string body, executable form.
fn parse_string(s: &Vec<char>, i: usize) -> (r: Option<(Vec<char>, usize)>)
    requires
        i <= s@.len(),
    ensures
        match r {
            Some(p) => p_string(s@, i as int) == Some((p.0@, p.1 as int)) && p.1 <= s@.len(),
            None => p_string(s@, i as int) is None,
        },
{
    let mut acc: Vec<char> = Vec::new();
    let mut cur = i;
    loop
        invariant
            i <= cur <= s@.len(),
            match p_string(s@, cur as int) {
                Some(p) => p_string(s@, i as int) == Some((acc@ + p.0, p.1)),
                None => p_string(s@, i as int) is None,
            },
        decreases s@.len() - cur,
    {
        if cur >= s.len() {
            return None;
        }
        let c = s[cur];
        if c == '"' {
            proof {
                assert(acc@ + Seq::<char>::empty() =~= acc@);
            }
            return Some((acc, cur + 1));
        } else if c == '\\' {
            if cur + 1 >= s.len() {
                return None;
            }
            if s[cur + 1] == 'u' {
                let code = match hex4_at(s, cur + 2) {
                    Some(v) => v,
                    None => {
                        return None;
                    },
                };
                if 0xD800 <= code && code <= 0xDBFF {
                    if s.len() - cur > 7 && s[cur + 6] == '\\' && s[cur + 7] == 'u' {
                        let low = match hex4_at(s, cur + 8) {
                            Some(v) => v,
                            None => {
                                return None;
                            },
                        };
                        if 0xDC00 <= low && low <= 0xDFFF {
                            let cp: u32 = 0x10000 + (code - 0xD800) * 0x400 + (low - 0xDC00);
                            let ch = char_of_code(cp).unwrap();
                            proof {
                                if p_string(s@, cur as int + 12) is Some {
                                    let p = p_string(s@, cur as int + 12)->0;
                                    assert(acc@ + (seq![ch] + p.0) =~= acc@.push(ch) + p.0);
                                }
                            }
                            acc.push(ch);
                            cur = cur + 12;
                        } else {
                            return None;
                        }
                    } else {
                        return None;
                    }
                } else if 0xDC00 <= code && code <= 0xDFFF {
                    return None;
                } else {
                    let ch = char_of_code(code).unwrap();
                    proof {
                        if p_string(s@, cur as int + 6) is Some {
                            let p = p_string(s@, cur as int + 6)->0;
                            assert(acc@ + (seq![ch] + p.0) =~= acc@.push(ch) + p.0);
                        }
                    }
                    acc.push(ch);
                    cur = cur + 6;
                }
            } else {
                match esc_code_of(s[cur + 1]) {
                    Some(d) => {
                        proof {
                            if p_string(s@, cur as int + 2) is Some {
                                let p = p_string(s@, cur as int + 2)->0;
                                assert(acc@ + (seq![d] + p.0) =~= acc@.push(d) + p.0);
                            }
                        }
                        acc.push(d);
                        cur = cur + 2;
                    },
                    None => {
                        return None;
                    },
                }
            }
        } else {
            let u = c as u32;
            if u < 32 {
                return None;
            }
            proof {
                if p_string(s@, cur as int + 1) is Some {
                    let p = p_string(s@, cur as int + 1)->0;
                    assert(acc@ + (seq![c] + p.0) =~= acc@.push(c) + p.0);
                }
            }
            acc.push(c);
            cur = cur + 1;
        }
    }
}

/// Parse one JSON value, executable form.
pub fn parse_value(s: &Vec<char>, i: usize, fuel: usize) -> (r: Option<(Json, usize)>)
    requires
        i <= s@.len(),
    ensures
        match r {
            Some(p) => p_value(s@, i as int, fuel as nat) == Some((jview(p.0), p.1 as int))
                && p.1 <= s@.len(),
            None => p_value(s@, i as int, fuel as nat) is None,
        },
    decreases fuel,
{
    if fuel == 0 {
        return None;
    }
    let j = skip_ws(s, i);
    if j >= s.len() {
        return None;
    }
    let c = s[j];
    if c == 'n' {
        if s.len() - j >= 4 && s[j + 1] == 'u' && s[j + 2] == 'l' && s[j + 3] == 'l' {
            Some((Json::Null, j + 4))
        } else {
            None
        }
    } else if c == 't' {
        if s.len() - j >= 4 && s[j + 1] == 'r' && s[j + 2] == 'u' && s[j + 3] == 'e' {
            Some((Json::Bool(true), j + 4))
        } else {
            None
        }
    } else if c == 'f' {
        if s.len() - j >= 5 && s[j + 1] == 'a' && s[j + 2] == 'l' && s[j + 3] == 's' && s[j + 4]
            == 'e' {
            Some((Json::Bool(false), j + 5))
        } else {
            None
        }
    } else if c == '"' {
        match parse_string(s, j + 1) {
            Some(p) => Some((Json::Str(p.0), p.1)),
            None => None,
        }
    } else if c == '[' {
        let k = skip_ws(s, j + 1);
        if k < s.len() && s[k] == ']' {
            let out: Vec<Json> = Vec::new();
            proof {
                assert(jview_seq(out@) =~= Seq::<JsonV>::empty());
            }
            Some((Json::Arr(out), k + 1))
        } else {
            match parse_items(s, j + 1, fuel - 1) {
                Some(p) => Some((Json::Arr(p.0), p.1)),
                None => None,
            }
        }
    } else if c == '{' {
        let k = skip_ws(s, j + 1);
        if k < s.len() && s[k] == '}' {
            let out: Vec<(Vec<char>, Json)> = Vec::new();
            proof {
                assert(jview_members(out@) =~= Seq::<(Seq<char>, JsonV)>::empty());
            }
            Some((Json::Obj(out), k + 1))
        } else {
            match parse_members(s, j + 1, fuel - 1) {
                Some(p) => Some((Json::Obj(p.0), p.1)),
                None => None,
            }
        }
    } else {
        let u = c as u32;
        if c == '-' || (48 <= u && u <= 57) {
            let e = match parse_number(s, j) {
                Some(e) => e,
                None => {
                    return None;
                },
            };
            let mut lex: Vec<char> = Vec::new();
            let mut t = j;
            while t < e
                invariant
                    j <= t <= e <= s@.len(),
                    lex@ == s@.subrange(j as int, t as int),
                decreases e - t,
            {
                lex.push(s[t]);
                t = t + 1;
                proof {
                    assert(lex@ =~= s@.subrange(j as int, t as int));
                }
            }
            Some((Json::Num(lex), e))
        } else {
            None
        }
    }
}

/// Parse the items of a nonempty array, executable form.
fn parse_items(s: &Vec<char>, i: usize, fuel: usize) -> (r: Option<(Vec<Json>, usize)>)
    requires
        i <= s@.len(),
    ensures
        match r {
            Some(p) => p_items(s@, i as int, fuel as nat) == Some((jview_seq(p.0@), p.1 as int))
                && p.1 <= s@.len(),
            None => p_items(s@, i as int, fuel as nat) is None,
        },
    decreases fuel,
{
    if fuel == 0 {
        return None;
    }
    match parse_value(s, i, fuel - 1) {
        Some(p) => {
            let (v, e) = p;
            let k = skip_ws(s, e);
            if k < s.len() && s[k] == ',' {
                match parse_items(s, k + 1, fuel - 1) {
                    Some(q) => {
                        let (mut rest, end) = q;
                        let mut out: Vec<Json> = Vec::new();
                        proof {
                            assert(jview_seq(rest@).len() == jview_seq(rest@).len());
                        }
                        let ghost rest0 = rest@;
                        out.push(v);
                        out.append(&mut rest);
                        proof {
                            assert(out@ =~= seq![v] + rest0);
                            assert(out@.subrange(1, out@.len() as int) =~= rest0);
                            assert(jview_seq(out@) =~= seq![jview(v)] + jview_seq(rest0));
                        }
                        Some((out, end))
                    },
                    None => None,
                }
            } else if k < s.len() && s[k] == ']' {
                let mut out: Vec<Json> = Vec::new();
                out.push(v);
                proof {
                    assert(out@[0] == v);
                    assert(out@.subrange(1, out@.len() as int) =~= Seq::<Json>::empty());
                    assert(jview_seq(out@.subrange(1, out@.len() as int)) == Seq::<
                        JsonV,
                    >::empty());
                    assert(jview_seq(out@) =~= seq![jview(v)]);
                }
                Some((out, k + 1))
            } else {
                None
            }
        },
        None => None,
    }
}

/// Whether a parsed member list already names `key`, executable form.
fn members_have_key(ms: &Vec<(Vec<char>, Json)>, key: &Vec<char>) -> (r: bool)
    ensures
        r == has_key(jview_members(ms@), key@),
{
    let mut i: usize = 0;
    while i < ms.len()
        invariant
            0 <= i <= ms@.len(),
            forall|k: int| 0 <= k < i ==> #[trigger] jview_members(ms@)[k].0 != key@,
        decreases ms@.len() - i,
    {
        if chars_eq(&ms[i].0, key) {
            proof {
                lemma_jview_members_index(ms@, i as int);
                assert(jview_members(ms@)[i as int].0 == key@);
            }
            return true;
        }
        i = i + 1;
        proof {
            lemma_jview_members_index(ms@, i - 1);
        }
    }
    proof {
        lemma_jview_members_len(ms@);
    }
    false
}

/// Parse the members of a nonempty object, executable form.
fn parse_members(s: &Vec<char>, i: usize, fuel: usize) -> (r: Option<
    (Vec<(Vec<char>, Json)>, usize),
>)
    requires
        i <= s@.len(),
    ensures
        match r {
            Some(p) => p_members(s@, i as int, fuel as nat) == Some(
                (jview_members(p.0@), p.1 as int),
            ) && p.1 <= s@.len(),
            None => p_members(s@, i as int, fuel as nat) is None,
        },
    decreases fuel,
{
    if fuel == 0 {
        return None;
    }
    let j = skip_ws(s, i);
    if j >= s.len() || s[j] != '"' {
        return None;
    }
    match parse_string(s, j + 1) {
        Some(kp) => {
            let (key, e1) = kp;
            let k = skip_ws(s, e1);
            if k >= s.len() || s[k] != ':' {
                return None;
            }
            match parse_value(s, k + 1, fuel - 1) {
                Some(vp) => {
                    let (v, e2) = vp;
                    let m = skip_ws(s, e2);
                    if m < s.len() && s[m] == ',' {
                        match parse_members(s, m + 1, fuel - 1) {
                            Some(q) => {
                                let (mut rest, end) = q;
                                if members_have_key(&rest, &key) {
                                    return None;
                                }
                                let ghost rest0 = rest@;
                                let ghost keyv = key@;
                                let ghost vv = jview(v);
                                let mut out: Vec<(Vec<char>, Json)> = Vec::new();
                                out.push((key, v));
                                out.append(&mut rest);
                                proof {
                                    assert(out@.subrange(1, out@.len() as int) =~= rest0);
                                    assert(out@[0].0@ == keyv && jview(out@[0].1) == vv);
                                    assert(jview_members(out@) =~= seq![(keyv, vv)]
                                        + jview_members(rest0));
                                }
                                Some((out, end))
                            },
                            None => None,
                        }
                    } else if m < s.len() && s[m] == '}' {
                        let ghost keyv = key@;
                        let ghost vv = jview(v);
                        let mut out: Vec<(Vec<char>, Json)> = Vec::new();
                        out.push((key, v));
                        proof {
                            assert(out@[0].0@ == keyv && jview(out@[0].1) == vv);
                            assert(out@.subrange(1, out@.len() as int) =~= Seq::<(
                                Vec<char>,
                                Json,
                            )>::empty());
                            assert(jview_members(out@.subrange(1, out@.len() as int)) == Seq::<
                                (Seq<char>, JsonV),
                            >::empty());
                            assert(jview_members(out@) =~= seq![(keyv, vv)]);
                        }
                        Some((out, m + 1))
                    } else {
                        None
                    }
                },
                None => None,
            }
        },
        None => None,
    }
}

/// Parse a complete JSON text: one value with only whitespace around it.
pub fn parse_json(s: &Vec<char>) -> (r: Option<Json>)
    requires
        s@.len() < usize::MAX,
    ensures
        match r {
            Some(j) => json_of(s@) == Some(jview(j)),
            None => json_of(s@) is None,
        },
{
    match parse_value(s, 0, s.len() + 1) {
        Some(p) => {
            let (j, e) = p;
            let t = skip_ws(s, e);
            if t == s.len() {
                Some(j)
            } else {
                None
            }
        },
        None => None,
    }
}

} // verus!
