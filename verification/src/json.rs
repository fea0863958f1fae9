//! The cache store's wire format: one flat JSON object of strings.
//!
//! The writer emits a compact object, `{"source":"translation",...}`,
//! escaping quotes, backslashes and control characters. The reader is a
//! small JSON-object parser: it skips whitespace between tokens, takes
//! the standard one-character escapes, and takes `\u` escapes up to
//! `00ff`; anything else fails the parse, and a failed parse starts the
//! cache empty, as a missing or corrupt store must.

use vstd::prelude::*;

verus! {

use crate::text::is_ws_char;
use crate::text::trim_start_spec;
use crate::text::lemma_trim_start_len;

broadcast use vstd::utf8::char_is_scalar, vstd::utf8::char_u32_cast;

/// The lowercase hex digit for `n` in `0..16`.
pub open spec fn hex_digit(n: int) -> char {
    if n == 0 {
        '0'
    } else if n == 1 {
        '1'
    } else if n == 2 {
        '2'
    } else if n == 3 {
        '3'
    } else if n == 4 {
        '4'
    } else if n == 5 {
        '5'
    } else if n == 6 {
        '6'
    } else if n == 7 {
        '7'
    } else if n == 8 {
        '8'
    } else if n == 9 {
        '9'
    } else if n == 10 {
        'a'
    } else if n == 11 {
        'b'
    } else if n == 12 {
        'c'
    } else if n == 13 {
        'd'
    } else if n == 14 {
        'e'
    } else {
        'f'
    }
}

/// The value of a hex digit, either case, or -1.
pub open spec fn hex_val(c: char) -> int {
    if 0x30 <= c as u32 && c as u32 <= 0x39 {
        c as u32 - 0x30
    } else if 0x61 <= c as u32 && c as u32 <= 0x66 {
        c as u32 - 0x61 + 10
    } else if 0x41 <= c as u32 && c as u32 <= 0x46 {
        c as u32 - 0x41 + 10
    } else {
        -1
    }
}

pub open spec fn is_hex(c: char) -> bool {
    hex_val(c) >= 0
}

/// How one character is written inside a JSON string: quotes and
/// backslashes escaped, the common control characters by letter, the
/// remaining control characters as `\u00..`, everything else as itself.
pub open spec fn esc_char(c: char) -> Seq<char> {
    if c == '"' {
        seq!['\\', '"']
    } else if c == '\\' {
        seq!['\\', '\\']
    } else if c == '\n' {
        seq!['\\', 'n']
    } else if c == '\r' {
        seq!['\\', 'r']
    } else if c == '\t' {
        seq!['\\', 't']
    } else if (c as u32) < 0x20 {
        seq!['\\', 'u', '0', '0', hex_digit((c as u32 / 16) as int), hex_digit((c as u32 % 16) as int)]
    } else {
        seq![c]
    }
}

/// A whole string written inside its quotes.
pub open spec fn enc_str(s: Seq<char>) -> Seq<char>
    decreases s.len(),
{
    if s.len() == 0 {
        Seq::empty()
    } else {
        esc_char(s[0]) + enc_str(s.drop_first())
    }
}

/// One written entry, `"key":"value"`.
pub open spec fn enc_entry(k: Seq<char>, v: Seq<char>) -> Seq<char> {
    seq!['"'] + enc_str(k) + seq!['"', ':', '"'] + enc_str(v) + seq!['"']
}

/// The written entry list, comma separated.
pub open spec fn enc_entries(es: Seq<(Seq<char>, Seq<char>)>) -> Seq<char>
    decreases es.len(),
{
    if es.len() == 0 {
        Seq::empty()
    } else if es.len() == 1 {
        enc_entry(es[0].0, es[0].1)
    } else {
        enc_entry(es[0].0, es[0].1) + seq![','] + enc_entries(es.drop_first())
    }
}

/// The whole written object.
pub open spec fn enc_map(es: Seq<(Seq<char>, Seq<char>)>) -> Seq<char> {
    seq!['{'] + enc_entries(es) + seq!['}']
}

/// The one-character escapes the reader takes.
pub open spec fn unescape1(e: char) -> Option<char> {
    if e == '"' {
        Some('"')
    } else if e == '\\' {
        Some('\\')
    } else if e == '/' {
        Some('/')
    } else if e == 'n' {
        Some('\n')
    } else if e == 'r' {
        Some('\r')
    } else if e == 't' {
        Some('\t')
    } else if e == 'b' {
        Some((8 as u32) as char)
    } else if e == 'f' {
        Some((12 as u32) as char)
    } else {
        None
    }
}

/// Read a JSON string body up to and through its closing quote: the
/// string's characters and what follows the quote. Unescaped control
/// characters, unknown escapes and `\u` escapes past `00ff` fail.
pub open spec fn parse_jstr(s: Seq<char>) -> Option<(Seq<char>, Seq<char>)>
    decreases s.len(),
{
    if s.len() == 0 {
        None
    } else if s[0] == '"' {
        Some((Seq::empty(), s.drop_first()))
    } else if s[0] == '\\' {
        if s.len() < 2 {
            None
        } else if s[1] == 'u' {
            if s.len() < 6 || !(is_hex(s[2]) && is_hex(s[3]) && is_hex(s[4]) && is_hex(s[5])) {
                None
            } else {
                let v = ((hex_val(s[2]) * 16 + hex_val(s[3])) * 16 + hex_val(s[4])) * 16 + hex_val(
                    s[5],
                );
                if v < 0x100 {
                    match parse_jstr(s.skip(6)) {
                        Some((b, r)) => Some((seq![(v as u32) as char] + b, r)),
                        None => None,
                    }
                } else {
                    None
                }
            }
        } else {
            match unescape1(s[1]) {
                Some(c) => match parse_jstr(s.skip(2)) {
                    Some((b, r)) => Some((seq![c] + b, r)),
                    None => None,
                },
                None => None,
            }
        }
    } else if (s[0] as u32) < 0x20 {
        None
    } else {
        match parse_jstr(s.drop_first()) {
            Some((b, r)) => Some((seq![s[0]] + b, r)),
            None => None,
        }
    }
}

/// A successful string read consumes at least the closing quote.
pub proof fn lemma_parse_jstr_shrinks(s: Seq<char>)
    ensures
        parse_jstr(s) matches Some(p) ==> p.1.len() < s.len(),
    decreases s.len(),
{
    if s.len() == 0 {
    } else if s[0] == '"' {
    } else if s[0] == '\\' {
        if s.len() >= 6 {
            lemma_parse_jstr_shrinks(s.skip(6));
        }
        if s.len() >= 2 {
            lemma_parse_jstr_shrinks(s.skip(2));
        }
    } else {
        lemma_parse_jstr_shrinks(s.drop_first());
    }
}

/// Read one `"key":"value"` entry, whitespace allowed around the colon
/// and before the key.
pub open spec fn parse_entry(s: Seq<char>) -> Option<((Seq<char>, Seq<char>), Seq<char>)> {
    let s1 = trim_start_spec(s);
    if s1.len() > 0 && s1[0] == '"' {
        match parse_jstr(s1.drop_first()) {
            Some((k, r1)) => {
                let r2 = trim_start_spec(r1);
                if r2.len() > 0 && r2[0] == ':' {
                    let r3 = trim_start_spec(r2.drop_first());
                    if r3.len() > 0 && r3[0] == '"' {
                        match parse_jstr(r3.drop_first()) {
                            Some((v, r4)) => Some(((k, v), r4)),
                            None => None,
                        }
                    } else {
                        None
                    }
                } else {
                    None
                }
            },
            None => None,
        }
    } else {
        None
    }
}

/// A successful entry read consumes at least the key's quotes.
pub proof fn lemma_parse_entry_shrinks(s: Seq<char>)
    ensures
        parse_entry(s) matches Some(p) ==> p.1.len() < s.len(),
{
    let s1 = trim_start_spec(s);
    lemma_trim_start_len(s);
    if s1.len() > 0 && s1[0] == '"' {
        lemma_parse_jstr_shrinks(s1.drop_first());
        match parse_jstr(s1.drop_first()) {
            Some(p1) => {
                let r1 = p1.1;
                let r2 = trim_start_spec(r1);
                lemma_trim_start_len(r1);
                if r2.len() > 0 && r2[0] == ':' {
                    let r3 = trim_start_spec(r2.drop_first());
                    lemma_trim_start_len(r2.drop_first());
                    if r3.len() > 0 && r3[0] == '"' {
                        lemma_parse_jstr_shrinks(r3.drop_first());
                    }
                }
            },
            None => {},
        }
    }
}

/// After one entry: either the closing brace, or a comma and another
/// entry, and so on.
pub open spec fn parse_entries_rest(s: Seq<char>) -> Option<
    (Seq<(Seq<char>, Seq<char>)>, Seq<char>),
>
    decreases s.len(),
    when true
    via parse_entries_rest_decreases
{
    let s1 = trim_start_spec(s);
    if s1.len() > 0 && s1[0] == '}' {
        Some((Seq::empty(), s1.drop_first()))
    } else if s1.len() > 0 && s1[0] == ',' {
        match parse_entry(s1.drop_first()) {
            Some((e, r)) => match parse_entries_rest(r) {
                Some((es, r2)) => Some((seq![e] + es, r2)),
                None => None,
            },
            None => None,
        }
    } else {
        None
    }
}

#[via_fn]
proof fn parse_entries_rest_decreases(s: Seq<char>) {
    let s1 = trim_start_spec(s);
    lemma_trim_start_len(s);
    if s1.len() > 0 && s1[0] == ',' {
        lemma_parse_entry_shrinks(s1.drop_first());
    }
}

/// Read a whole flat object of strings, with nothing but whitespace
/// after it.
pub open spec fn parse_obj(s: Seq<char>) -> Option<Seq<(Seq<char>, Seq<char>)>> {
    let s1 = trim_start_spec(s);
    if s1.len() > 0 && s1[0] == '{' {
        let s2 = trim_start_spec(s1.drop_first());
        if s2.len() > 0 && s2[0] == '}' {
            if trim_start_spec(s2.drop_first()).len() == 0 {
                Some(Seq::empty())
            } else {
                None
            }
        } else {
            match parse_entry(s1.drop_first()) {
                Some((e, r)) => match parse_entries_rest(r) {
                    Some((es, r2)) => if trim_start_spec(r2).len() == 0 {
                        Some(seq![e] + es)
                    } else {
                        None
                    },
                    None => None,
                },
                None => None,
            }
        }
    } else {
        None
    }
}

fn hex_digit_exec(d: u32) -> (c: char)
    requires
        d < 16,
    ensures
        c == hex_digit(d as int),
{
    if d == 0 {
        '0'
    } else if d == 1 {
        '1'
    } else if d == 2 {
        '2'
    } else if d == 3 {
        '3'
    } else if d == 4 {
        '4'
    } else if d == 5 {
        '5'
    } else if d == 6 {
        '6'
    } else if d == 7 {
        '7'
    } else if d == 8 {
        '8'
    } else if d == 9 {
        '9'
    } else if d == 10 {
        'a'
    } else if d == 11 {
        'b'
    } else if d == 12 {
        'c'
    } else if d == 13 {
        'd'
    } else if d == 14 {
        'e'
    } else {
        'f'
    }
}

fn push_esc_char(out: &mut Vec<char>, c: char)
    ensures
        final(out)@ == old(out)@ + esc_char(c),
{
    let ghost base = out@;
    if c == '"' {
        out.push('\\');
        out.push('"');
    } else if c == '\\' {
        out.push('\\');
        out.push('\\');
    } else if c == '\n' {
        out.push('\\');
        out.push('n');
    } else if c == '\r' {
        out.push('\\');
        out.push('r');
    } else if c == '\t' {
        out.push('\\');
        out.push('t');
    } else {
        let u = c as u32;
        if u < 0x20 {
            out.push('\\');
            out.push('u');
            out.push('0');
            out.push('0');
            out.push(hex_digit_exec(u / 16));
            out.push(hex_digit_exec(u % 16));
        } else {
            out.push(c);
        }
    }
    proof {
        assert(out@ =~= base + esc_char(c));
    }
}

proof fn lemma_enc_str_snoc(s: Seq<char>, c: char)
    ensures
        enc_str(s.push(c)) == enc_str(s) + esc_char(c),
    decreases s.len(),
{
    if s.len() == 0 {
        reveal_with_fuel(enc_str, 3);
        assert(s.push(c)[0] == c);
        assert(s.push(c).drop_first() =~= Seq::<char>::empty());
        assert(enc_str(s.push(c)) =~= esc_char(c) + Seq::<char>::empty());
        assert(esc_char(c) + Seq::<char>::empty() =~= esc_char(c));
        assert(enc_str(s) + esc_char(c) =~= esc_char(c));
    } else {
        assert(s.push(c)[0] == s[0]);
        assert(s.push(c).drop_first() =~= s.drop_first().push(c));
        lemma_enc_str_snoc(s.drop_first(), c);
        assert(enc_str(s.push(c)) == esc_char(s[0]) + (enc_str(s.drop_first()) + esc_char(c)));
        assert(esc_char(s[0]) + (enc_str(s.drop_first()) + esc_char(c)) =~= (esc_char(s[0])
            + enc_str(s.drop_first())) + esc_char(c));
    }
}

fn push_enc_str(out: &mut Vec<char>, s: &String)
    ensures
        final(out)@ == old(out)@ + enc_str(s@),
{
    let v = crate::text::chars_vec(s.as_str());
    let n = v.len();
    let mut i: usize = 0;
    proof {
        assert(s@.take(0) =~= Seq::<char>::empty());
        assert(old(out)@ + enc_str(s@.take(0)) =~= old(out)@);
    }
    while i < n
        invariant
            i <= n == v@.len(),
            v@ == s@,
            out@ == old(out)@ + enc_str(s@.take(i as int)),
        decreases n - i,
    {
        proof {
            assert(s@.take(i + 1) =~= s@.take(i as int).push(s@[i as int]));
            lemma_enc_str_snoc(s@.take(i as int), s@[i as int]);
        }
        push_esc_char(out, v[i]);
        i = i + 1;
        proof {
            assert(out@ =~= old(out)@ + enc_str(s@.take(i as int)));
        }
    }
    proof {
        assert(s@.take(n as int) =~= s@);
    }
}

fn push_enc_entry(out: &mut Vec<char>, k: &String, v: &String)
    ensures
        final(out)@ == old(out)@ + enc_entry(k@, v@),
{
    out.push('"');
    push_enc_str(out, k);
    out.push('"');
    out.push(':');
    out.push('"');
    push_enc_str(out, v);
    out.push('"');
    proof {
        assert(out@ =~= old(out)@ + enc_entry(k@, v@));
    }
}

proof fn lemma_enc_entries_snoc(es: Seq<(Seq<char>, Seq<char>)>, e: (Seq<char>, Seq<char>))
    ensures
        enc_entries(es.push(e)) == (if es.len() == 0 {
            enc_entry(e.0, e.1)
        } else {
            enc_entries(es) + seq![','] + enc_entry(e.0, e.1)
        }),
    decreases es.len(),
{
    let ep = es.push(e);
    if es.len() == 0 {
        assert(ep[0] == e);
    } else {
        assert(ep[0] == es[0]);
        assert(ep.drop_first() =~= es.drop_first().push(e));
        lemma_enc_entries_snoc(es.drop_first(), e);
        if es.len() == 1 {
            assert(es.drop_first().len() == 0);
            assert(enc_entries(ep) == enc_entry(ep[0].0, ep[0].1) + seq![','] + enc_entries(
                ep.drop_first(),
            ));
            assert(enc_entries(es) == enc_entry(es[0].0, es[0].1));
            assert(enc_entry(es[0].0, es[0].1) + seq![','] + enc_entry(e.0, e.1) =~= enc_entry(
                ep[0].0,
                ep[0].1,
            ) + seq![','] + enc_entries(ep.drop_first()));
        } else {
            assert(enc_entries(ep) == enc_entry(ep[0].0, ep[0].1) + seq![','] + enc_entries(
                ep.drop_first(),
            ));
            assert(enc_entries(es) == enc_entry(es[0].0, es[0].1) + seq![','] + enc_entries(
                es.drop_first(),
            ));
            assert(enc_entry(es[0].0, es[0].1) + seq![','] + (enc_entries(es.drop_first())
                + seq![','] + enc_entry(e.0, e.1)) =~= (enc_entry(es[0].0, es[0].1) + seq![',']
                + enc_entries(es.drop_first())) + seq![','] + enc_entry(e.0, e.1));
        }
    }
}

/// Write the cache as its store text: one flat, compact JSON object,
/// entries in the cache's order.
pub fn cache_to_json(cache: &crate::cache::TranslationCache) -> (r: String)
    ensures
        r@ == enc_map(cache.entry_views()),
{
    let ghost es = cache.entry_views();
    let mut out: Vec<char> = Vec::new();
    out.push('{');
    let n = cache.entries.len();
    let mut i: usize = 0;
    proof {
        assert(es.take(0) =~= Seq::<(Seq<char>, Seq<char>)>::empty());
        assert(out@ =~= seq!['{'] + enc_entries(es.take(0)));
    }
    while i < n
        invariant
            i <= n == cache.entries@.len(),
            es == cache.entry_views(),
            out@ == seq!['{'] + enc_entries(es.take(i as int)),
        decreases n - i,
    {
        proof {
            assert(es.take(i + 1) =~= es.take(i as int).push(es[i as int]));
            lemma_enc_entries_snoc(es.take(i as int), es[i as int]);
        }
        if i > 0 {
            out.push(',');
        }
        push_enc_entry(&mut out, &cache.entries[i].0, &cache.entries[i].1);
        i = i + 1;
        proof {
            assert(out@ =~= seq!['{'] + enc_entries(es.take(i as int)));
        }
    }
    out.push('}');
    proof {
        assert(es.take(n as int) =~= es);
        assert(out@ =~= enc_map(es));
    }
    crate::text::string_from_chars(out.as_slice())
}

fn hex_val_exec(c: char) -> (r: Option<u32>)
    ensures
        match r {
            Some(d) => hex_val(c) == d && d < 16,
            None => hex_val(c) < 0,
        },
{
    let u = c as u32;
    if 0x30 <= u && u <= 0x39 {
        Some(u - 0x30)
    } else if 0x61 <= u && u <= 0x66 {
        Some(u - 0x61 + 10)
    } else if 0x41 <= u && u <= 0x46 {
        Some(u - 0x41 + 10)
    } else {
        None
    }
}

fn unescape1_exec(e: char) -> (r: Option<char>)
    ensures
        r == unescape1(e),
{
    if e == '"' {
        Some('"')
    } else if e == '\\' {
        Some('\\')
    } else if e == '/' {
        Some('/')
    } else if e == 'n' {
        Some('\n')
    } else if e == 'r' {
        Some('\r')
    } else if e == 't' {
        Some('\t')
    } else if e == 'b' {
        let c = (8 as u8) as char;
        proof {
            assert(c as u32 == 8);
        }
        Some(c)
    } else if e == 'f' {
        let c = (12 as u8) as char;
        proof {
            assert(c as u32 == 12);
        }
        Some(c)
    } else {
        None
    }
}

/// Index just past the whitespace that begins at `pos`.
fn skip_ws_at(v: &[char], pos: usize) -> (r: usize)
    requires
        pos <= v@.len(),
    ensures
        pos <= r <= v@.len(),
        trim_start_spec(v@.skip(pos as int)) == v@.skip(r as int),
        r < v@.len() ==> !is_ws_char(v@[r as int]),
{
    let n = v.len();
    let mut r = pos;
    while r < n && crate::text::is_ws(v[r])
        invariant
            pos <= r <= n == v@.len(),
            forall|k: int| pos <= k < r ==> is_ws_char(v@[k]),
        decreases n - r,
    {
        r = r + 1;
    }
    proof {
        let s = v@.skip(pos as int);
        crate::text::lemma_trim_start_skip(s, r - pos);
        assert(s.subrange(r - pos, s.len() as int) =~= v@.skip(r as int));
    }
    r
}

/// Read a string body from `pos` (just past the opening quote).
fn parse_jstr_at(v: &[char], pos: usize) -> (r: Option<(Vec<char>, usize)>)
    requires
        pos <= v@.len(),
    ensures
        match r {
            Some(p) => p.1 <= v@.len() && parse_jstr(v@.skip(pos as int)) == Some(
                (p.0@, v@.skip(p.1 as int)),
            ),
            None => parse_jstr(v@.skip(pos as int)) is None,
        },
{
    let n = v.len();
    let mut acc: Vec<char> = Vec::new();
    let mut cur = pos;
    loop
        invariant
            pos <= cur <= n == v@.len(),
            parse_jstr(v@.skip(pos as int)) == (match parse_jstr(v@.skip(cur as int)) {
                Some((b, r)) => Some((acc@ + b, r)),
                None => None,
            }),
        decreases n - cur,
    {
        let ghost s = v@.skip(cur as int);
        if cur == n {
            proof {
                assert(s.len() == 0);
            }
            return None;
        }
        proof {
            assert(s[0] == v@[cur as int]);
        }
        let c = v[cur];
        if c == '"' {
            proof {
                assert(s.drop_first() =~= v@.skip(cur + 1));
                assert(parse_jstr(s) == Some((Seq::<char>::empty(), v@.skip(cur + 1))));
                assert(acc@ + Seq::<char>::empty() =~= acc@);
            }
            return Some((acc, cur + 1));
        }
        if c == '\\' {
            if cur + 1 == n {
                proof {
                    assert(s.len() < 2);
                }
                return None;
            }
            proof {
                assert(s[1] == v@[cur + 1]);
            }
            let e = v[cur + 1];
            if e == 'u' {
                if n - cur < 6 {
                    proof {
                        assert(s.len() < 6);
                    }
                    return None;
                }
                proof {
                    assert(s[2] == v@[cur + 2]);
                    assert(s[3] == v@[cur + 3]);
                    assert(s[4] == v@[cur + 4]);
                    assert(s[5] == v@[cur + 5]);
                }
                let h2 = hex_val_exec(v[cur + 2]);
                let h3 = hex_val_exec(v[cur + 3]);
                let h4 = hex_val_exec(v[cur + 4]);
                let h5 = hex_val_exec(v[cur + 5]);
                match (h2, h3, h4, h5) {
                    (Some(d2), Some(d3), Some(d4), Some(d5)) => {
                        let vv = ((d2 * 16 + d3) * 16 + d4) * 16 + d5;
                        if vv >= 0x100 {
                            return None;
                        }
                        let c2 = (vv as u8) as char;
                        proof {
                            assert(c2 as u32 == vv);
                            assert((vv as u32) as char == c2);
                            assert(s.skip(6) =~= v@.skip(cur + 6));
                        }
                        let ghost old_acc = acc@;
                        acc.push(c2);
                        proof {
                            assert(parse_jstr(s) == (match parse_jstr(v@.skip(cur + 6)) {
                                Some((b, r)) => Some((seq![c2] + b, r)),
                                None => None,
                            }));
                            assert forall|b: Seq<char>| old_acc + (seq![c2] + b) =~= acc@
                                + b by {}
                        }
                        cur = cur + 6;
                    },
                    _ => {
                        return None;
                    },
                }
            } else {
                match unescape1_exec(e) {
                    Some(c2) => {
                        proof {
                            assert(s.skip(2) =~= v@.skip(cur + 2));
                        }
                        let ghost old_acc = acc@;
                        acc.push(c2);
                        proof {
                            assert(parse_jstr(s) == (match parse_jstr(v@.skip(cur + 2)) {
                                Some((b, r)) => Some((seq![c2] + b, r)),
                                None => None,
                            }));
                            assert forall|b: Seq<char>| old_acc + (seq![c2] + b) =~= acc@
                                + b by {}
                        }
                        cur = cur + 2;
                    },
                    None => {
                        return None;
                    },
                }
            }
        } else {
            let u = c as u32;
            if u < 0x20 {
                return None;
            }
            proof {
                assert(s.drop_first() =~= v@.skip(cur + 1));
            }
            let ghost old_acc = acc@;
            acc.push(c);
            proof {
                assert(parse_jstr(s) == (match parse_jstr(v@.skip(cur + 1)) {
                    Some((b, r)) => Some((seq![c] + b, r)),
                    None => None,
                }));
                assert forall|b: Seq<char>| old_acc + (seq![c] + b) =~= acc@ + b by {}
            }
            cur = cur + 1;
        }
    }
}

/// Read one entry from `pos`.
fn parse_entry_at(v: &[char], pos: usize) -> (r: Option<(String, String, usize)>)
    requires
        pos <= v@.len(),
    ensures
        match r {
            Some(p) => p.2 <= v@.len() && parse_entry(v@.skip(pos as int)) == Some(
                ((p.0@, p.1@), v@.skip(p.2 as int)),
            ),
            None => parse_entry(v@.skip(pos as int)) is None,
        },
{
    let n = v.len();
    let p1 = skip_ws_at(v, pos);
    let ghost s1 = trim_start_spec(v@.skip(pos as int));
    if p1 == n {
        proof {
            assert(s1.len() == 0);
        }
        return None;
    }
    proof {
        assert(s1[0] == v@[p1 as int]);
    }
    if v[p1] != '"' {
        return None;
    }
    proof {
        assert(s1.drop_first() =~= v@.skip(p1 + 1));
    }
    match parse_jstr_at(v, p1 + 1) {
        Some((k, q1)) => {
            let q2 = skip_ws_at(v, q1);
            let ghost r2 = trim_start_spec(v@.skip(q1 as int));
            if q2 == n {
                proof {
                    assert(r2.len() == 0);
                }
                return None;
            }
            proof {
                assert(r2[0] == v@[q2 as int]);
            }
            if v[q2] != ':' {
                return None;
            }
            proof {
                assert(r2.drop_first() =~= v@.skip(q2 + 1));
            }
            let q3 = skip_ws_at(v, q2 + 1);
            let ghost r3 = trim_start_spec(v@.skip(q2 + 1));
            if q3 == n {
                proof {
                    assert(r3.len() == 0);
                }
                return None;
            }
            proof {
                assert(r3[0] == v@[q3 as int]);
            }
            if v[q3] != '"' {
                return None;
            }
            proof {
                assert(r3.drop_first() =~= v@.skip(q3 + 1));
            }
            match parse_jstr_at(v, q3 + 1) {
                Some((w, q4)) => {
                    let ks = crate::text::string_from_chars(k.as_slice());
                    let ws = crate::text::string_from_chars(w.as_slice());
                    Some((ks, ws, q4))
                },
                None => None,
            }
        },
        None => None,
    }
}

/// Read a whole store text as its entry pairs, in the text's order.
fn parse_obj_pairs(v: &[char]) -> (r: Option<Vec<(String, String)>>)
    ensures
        match r {
            Some(ps) => parse_obj(v@) == Some(crate::cache::pair_views(ps@)),
            None => parse_obj(v@) is None,
        },
{
    let n = v.len();
    proof {
        assert(v@.skip(0) =~= v@);
    }
    let p1 = skip_ws_at(v, 0);
    let ghost s1 = trim_start_spec(v@);
    if p1 == n {
        proof {
            assert(s1.len() == 0);
        }
        return None;
    }
    proof {
        assert(s1[0] == v@[p1 as int]);
    }
    if v[p1] != '{' {
        return None;
    }
    proof {
        assert(s1.drop_first() =~= v@.skip(p1 + 1));
    }
    let p2 = skip_ws_at(v, p1 + 1);
    let ghost s2 = trim_start_spec(v@.skip(p1 + 1));
    if p2 < n && v[p2] == '}' {
        proof {
            assert(s2[0] == v@[p2 as int]);
            assert(s2.drop_first() =~= v@.skip(p2 + 1));
        }
        let p3 = skip_ws_at(v, p2 + 1);
        if p3 == n {
            let ps: Vec<(String, String)> = Vec::new();
            proof {
                assert(trim_start_spec(v@.skip(p2 + 1)).len() == 0);
                assert(crate::cache::pair_views(ps@) =~= Seq::<(Seq<char>, Seq<char>)>::empty());
            }
            return Some(ps);
        } else {
            proof {
                assert(trim_start_spec(v@.skip(p2 + 1)).len() > 0);
            }
            return None;
        }
    }
    proof {
        if s2.len() > 0 {
            assert(s2[0] == v@[p2 as int]);
        }
        assert(!(s2.len() > 0 && s2[0] == '}'));
    }
    match parse_entry_at(v, p1 + 1) {
        Some((k0, v0, q0)) => {
            let mut pairs: Vec<(String, String)> = Vec::new();
            pairs.push((k0, v0));
            let mut cur = q0;
            proof {
                assert(crate::cache::pair_views(pairs@) =~= seq![(k0@, v0@)]);
            }
            loop
                invariant
                    cur <= n == v@.len(),
                    parse_obj(v@) == (match parse_entries_rest(v@.skip(cur as int)) {
                        Some((es, r2)) => if trim_start_spec(r2).len() == 0 {
                            Some(crate::cache::pair_views(pairs@) + es)
                        } else {
                            None
                        },
                        None => None,
                    }),
                decreases n - cur,
            {
                let ghost sc = v@.skip(cur as int);
                let t1 = skip_ws_at(v, cur);
                let ghost t1s = trim_start_spec(sc);
                if t1 == n {
                    proof {
                        assert(t1s.len() == 0);
                    }
                    return None;
                }
                proof {
                    assert(t1s[0] == v@[t1 as int]);
                }
                if v[t1] == '}' {
                    proof {
                        assert(t1s.drop_first() =~= v@.skip(t1 + 1));
                        assert(parse_entries_rest(sc) == Some(
                            (Seq::<(Seq<char>, Seq<char>)>::empty(), v@.skip(t1 + 1)),
                        ));
                    }
                    let t2 = skip_ws_at(v, t1 + 1);
                    if t2 == n {
                        proof {
                            assert(trim_start_spec(v@.skip(t1 + 1)).len() == 0);
                            assert(crate::cache::pair_views(pairs@) + Seq::<
                                (Seq<char>, Seq<char>),
                            >::empty() =~= crate::cache::pair_views(pairs@));
                        }
                        return Some(pairs);
                    } else {
                        proof {
                            assert(trim_start_spec(v@.skip(t1 + 1)).len() > 0);
                        }
                        return None;
                    }
                }
                if v[t1] != ',' {
                    return None;
                }
                proof {
                    assert(t1s.drop_first() =~= v@.skip(t1 + 1));
                    lemma_parse_entry_shrinks(v@.skip(t1 + 1));
                }
                match parse_entry_at(v, t1 + 1) {
                    Some((k, w, q2)) => {
                        let ghost old_pairs = pairs@;
                        pairs.push((k, w));
                        proof {
                            assert(crate::cache::pair_views(pairs@) =~= crate::cache::pair_views(
                                old_pairs,
                            ).push((k@, w@)));
                            assert forall|es2: Seq<(Seq<char>, Seq<char>)>|
                                crate::cache::pair_views(old_pairs) + (seq![(k@, w@)] + es2)
                                    =~= crate::cache::pair_views(pairs@) + es2 by {}
                        }
                        cur = q2;
                    },
                    None => {
                        return None;
                    },
                }
            }
        },
        None => None,
    }
}

/// Read the cache back from its store text. A text that does not parse
/// as a flat object of strings yields the empty cache; a duplicated key
/// keeps its last translation.
pub fn cache_from_json(s: &str) -> (c: crate::cache::TranslationCache)
    ensures
        c.wf(),
        match parse_obj(s@) {
            Some(es) => c.as_map() == crate::cache::assoc_map(es) && (crate::cache::keys_distinct(
                es,
            ) ==> c.entry_views() == es),
            None => c.entry_views().len() == 0 && c.as_map() == Map::<
                Seq<char>,
                Seq<char>,
            >::empty(),
        },
{
    let rawv = crate::text::chars_vec(s);
    match parse_obj_pairs(rawv.as_slice()) {
        Some(pairs) => {
            let ghost es = crate::cache::pair_views(pairs@);
            let mut c = crate::cache::TranslationCache::new();
            let n = pairs.len();
            let mut i: usize = 0;
            proof {
                assert(es.take(0) =~= Seq::<(Seq<char>, Seq<char>)>::empty());
                assert(c.entry_views() =~= es.take(0));
            }
            while i < n
                invariant
                    i <= n == pairs@.len(),
                    es == crate::cache::pair_views(pairs@),
                    c.wf(),
                    c.as_map() == crate::cache::assoc_map(es.take(i as int)),
                    crate::cache::keys_distinct(es) ==> c.entry_views() == es.take(i as int),
                decreases n - i,
            {
                proof {
                    assert(es.take(i + 1).drop_last() =~= es.take(i as int));
                    assert(es.take(i + 1).last() == es[i as int]);
                    if crate::cache::keys_distinct(es) {
                        crate::cache::lemma_assoc_contains(es.take(i as int), es[i as int].0);
                        assert(forall|j: int|
                            0 <= j < i ==> (#[trigger] es.take(i as int)[j]).0 != es[i as int].0);
                    }
                }
                c.insert(pairs[i].0.clone(), pairs[i].1.clone());
                i = i + 1;
                proof {
                    if crate::cache::keys_distinct(es) {
                        assert(c.entry_views() =~= es.take(i as int));
                    }
                }
            }
            proof {
                assert(es.take(n as int) =~= es);
            }
            c
        },
        None => crate::cache::TranslationCache::new(),
    }
}

proof fn lemma_parse_jstr_enc(k: Seq<char>, rest: Seq<char>)
    ensures
        parse_jstr(enc_str(k) + seq!['"'] + rest) == Some((k, rest)),
    decreases k.len(),
{
    let s = enc_str(k) + seq!['"'] + rest;
    if k.len() == 0 {
        assert(enc_str(k) =~= Seq::<char>::empty());
        assert(s =~= seq!['"'] + rest);
        assert(s[0] == '"');
        assert(s.drop_first() =~= rest);
        assert(Seq::<char>::empty() =~= k);
    } else {
        let c = k[0];
        let e = esc_char(c);
        let s2 = enc_str(k.drop_first()) + seq!['"'] + rest;
        assert(enc_str(k) == e + enc_str(k.drop_first()));
        assert(s =~= e + s2);
        lemma_parse_jstr_enc(k.drop_first(), rest);
        assert(seq![c] + k.drop_first() =~= k);
        if c == '"' || c == '\\' || c == '\n' || c == '\r' || c == '\t' {
            assert(e.len() == 2);
            assert(s[0] == e[0] && s[1] == e[1]);
            assert(s[0] == '\\');
            assert(s.skip(2) =~= s2);
            assert(unescape1(s[1]) == Some(c));
            assert(parse_jstr(s) == Some((seq![c] + k.drop_first(), rest)));
        } else if (c as u32) < 0x20 {
            assert(e.len() == 6);
            assert(s[0] == e[0] && s[1] == e[1] && s[2] == e[2] && s[3] == e[3] && s[4] == e[4]
                && s[5] == e[5]);
            assert(s[0] == '\\' && s[1] == 'u' && s[2] == '0' && s[3] == '0');
            let hi = c as u32 / 16;
            let lo = c as u32 % 16;
            assert(hex_val('0') == 0);
            assert(hex_val(hex_digit(hi as int)) == hi);
            assert(hex_val(hex_digit(lo as int)) == lo);
            let v = ((hex_val(s[2]) * 16 + hex_val(s[3])) * 16 + hex_val(s[4])) * 16 + hex_val(
                s[5],
            );
            assert(v == c as u32);
            assert(v < 0x100);
            assert(s.skip(6) =~= s2);
            vstd::utf8::char_is_scalar(c);
            assert(v as u32 == c as u32);
            vstd::utf8::char_u32_cast(c, v as u32);
            assert((v as u32) as char == c);
            assert(parse_jstr(s) == Some((seq![c] + k.drop_first(), rest)));
        } else {
            assert(e =~= seq![c]);
            assert(s[0] == c);
            assert(s.drop_first() =~= s2);
            assert(parse_jstr(s) == Some((seq![c] + k.drop_first(), rest)));
        }
    }
}

proof fn lemma_parse_entry_enc(k: Seq<char>, v: Seq<char>, rest: Seq<char>)
    ensures
        parse_entry(enc_entry(k, v) + rest) == Some(((k, v), rest)),
{
    let s = enc_entry(k, v) + rest;
    assert(s[0] == '"');
    assert(!is_ws_char(s[0]));
    assert(trim_start_spec(s) == s);
    let tail1 = seq![':', '"'] + enc_str(v) + seq!['"'] + rest;
    assert(s.drop_first() =~= enc_str(k) + seq!['"'] + tail1);
    lemma_parse_jstr_enc(k, tail1);
    assert(tail1[0] == ':');
    assert(!is_ws_char(tail1[0]));
    assert(trim_start_spec(tail1) == tail1);
    let tail2 = seq!['"'] + enc_str(v) + seq!['"'] + rest;
    assert(tail1.drop_first() =~= tail2);
    assert(tail2[0] == '"');
    assert(!is_ws_char(tail2[0]));
    assert(trim_start_spec(tail2) == tail2);
    assert(tail2.drop_first() =~= enc_str(v) + seq!['"'] + rest);
    lemma_parse_jstr_enc(v, rest);
}

/// The text after the first entry of a written object: a comma and an
/// entry for each further pair.
spec fn sep_tail(es: Seq<(Seq<char>, Seq<char>)>) -> Seq<char>
    decreases es.len(),
{
    if es.len() == 0 {
        Seq::empty()
    } else {
        seq![','] + enc_entry(es[0].0, es[0].1) + sep_tail(es.drop_first())
    }
}

proof fn lemma_enc_entries_head(es: Seq<(Seq<char>, Seq<char>)>)
    requires
        es.len() >= 1,
    ensures
        enc_entries(es) == enc_entry(es[0].0, es[0].1) + sep_tail(es.drop_first()),
    decreases es.len(),
{
    if es.len() == 1 {
        assert(es.drop_first().len() == 0);
        assert(enc_entry(es[0].0, es[0].1) + Seq::<char>::empty() =~= enc_entry(
            es[0].0,
            es[0].1,
        ));
    } else {
        let ds = es.drop_first();
        lemma_enc_entries_head(ds);
        assert(enc_entries(es) == enc_entry(es[0].0, es[0].1) + seq![','] + enc_entries(ds));
        assert(sep_tail(ds) =~= seq![','] + enc_entry(ds[0].0, ds[0].1) + sep_tail(
            ds.drop_first(),
        ));
        assert(enc_entry(es[0].0, es[0].1) + seq![','] + (enc_entry(ds[0].0, ds[0].1) + sep_tail(
            ds.drop_first(),
        )) =~= enc_entry(es[0].0, es[0].1) + sep_tail(ds));
        assert(enc_entry(es[0].0, es[0].1) + seq![','] + enc_entries(ds) =~= enc_entry(
            es[0].0,
            es[0].1,
        ) + seq![','] + (enc_entry(ds[0].0, ds[0].1) + sep_tail(ds.drop_first())));
    }
}

proof fn lemma_parse_rest_enc(es: Seq<(Seq<char>, Seq<char>)>)
    ensures
        parse_entries_rest(sep_tail(es) + seq!['}']) == Some((es, Seq::<char>::empty())),
    decreases es.len(),
{
    let s = sep_tail(es) + seq!['}'];
    if es.len() == 0 {
        assert(s =~= seq!['}']);
        assert(s[0] == '}');
        assert(!is_ws_char(s[0]));
        assert(trim_start_spec(s) == s);
        assert(s.drop_first() =~= Seq::<char>::empty());
        assert(Seq::<(Seq<char>, Seq<char>)>::empty() =~= es);
    } else {
        let ds = es.drop_first();
        assert(s =~= seq![','] + (enc_entry(es[0].0, es[0].1) + (sep_tail(ds) + seq!['}'])));
        assert(s[0] == ',');
        assert(!is_ws_char(s[0]));
        assert(trim_start_spec(s) == s);
        assert(s[0] != '}');
        assert(s.drop_first() =~= enc_entry(es[0].0, es[0].1) + (sep_tail(ds) + seq!['}']));
        lemma_parse_entry_enc(es[0].0, es[0].1, sep_tail(ds) + seq!['}']);
        lemma_parse_rest_enc(ds);
        assert(seq![es[0]] + ds =~= es);
    }
}

/// Round trip of the store format: the text written for any entry list
/// parses back to exactly that list, order and all. With the cache's
/// keys unique, saving and loading therefore rebuilds the cache entry
/// for entry.
pub proof fn lemma_json_round_trip(es: Seq<(Seq<char>, Seq<char>)>)
    ensures
        parse_obj(enc_map(es)) == Some(es),
{
    let s = enc_map(es);
    assert(s[0] == '{');
    assert(!is_ws_char(s[0]));
    assert(trim_start_spec(s) == s);
    if es.len() == 0 {
        assert(enc_entries(es) =~= Seq::<char>::empty());
        assert(s.drop_first() =~= seq!['}']);
        let s2 = trim_start_spec(s.drop_first());
        assert(s.drop_first()[0] == '}');
        assert(!is_ws_char(s.drop_first()[0]));
        assert(s2 == s.drop_first());
        assert(s2.drop_first() =~= Seq::<char>::empty());
        assert(trim_start_spec(Seq::<char>::empty()).len() == 0);
        assert(Seq::<(Seq<char>, Seq<char>)>::empty() =~= es);
    } else {
        lemma_enc_entries_head(es);
        let ds = es.drop_first();
        assert(s.drop_first() =~= enc_entry(es[0].0, es[0].1) + (sep_tail(ds) + seq!['}']));
        let s2 = trim_start_spec(s.drop_first());
        assert(s.drop_first()[0] == '"');
        assert(!is_ws_char(s.drop_first()[0]));
        assert(s2 == s.drop_first());
        assert(s2[0] != '}');
        lemma_parse_entry_enc(es[0].0, es[0].1, sep_tail(ds) + seq!['}']);
        lemma_parse_rest_enc(ds);
        assert(trim_start_spec(Seq::<char>::empty()).len() == 0);
        assert(seq![es[0]] + ds =~= es);
    }
}

/// Cache round trip: the store text written for a well-formed cache
/// parses back to exactly the cache's entries, so loading it into a
/// fresh cache rebuilds the same mapping, pair for pair.
pub proof fn lemma_cache_round_trip(c: crate::cache::TranslationCache)
    requires
        c.wf(),
    ensures
        parse_obj(enc_map(c.entry_views())) == Some(c.entry_views()),
{
    lemma_json_round_trip(c.entry_views());
}

} // verus!
