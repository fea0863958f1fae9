//! Character and string utilities shared by the parsers and planners.
//!
//! Everything here works on `char` sequences so that contracts can be
//! stated over `Seq<char>` views directly.

use vstd::prelude::*;

verus! {

use vstd::std_specs::iter::IteratorSpec;
use vstd::string::StrSliceExecFns;

broadcast use vstd::utf8::char_is_scalar, vstd::utf8::char_u32_cast;

/// The characters Rust's `char::is_whitespace` recognizes (the Unicode
/// `White_Space` property).
pub open spec fn is_ws_char(c: char) -> bool {
    ||| c == ' '
    ||| c == '\t'
    ||| c == '\n'
    ||| c == '\r'
    ||| c as u32 == 0x0B
    ||| c as u32 == 0x0C
    ||| c as u32 == 0x85
    ||| c as u32 == 0xA0
    ||| c as u32 == 0x1680
    ||| (0x2000 <= c as u32 && c as u32 <= 0x200A)
    ||| c as u32 == 0x2028
    ||| c as u32 == 0x2029
    ||| c as u32 == 0x202F
    ||| c as u32 == 0x205F
    ||| c as u32 == 0x3000
}

/// Whitespace test over the Unicode `White_Space` set.
pub fn is_ws(c: char) -> (r: bool)
    ensures
        r == is_ws_char(c),
{
    let u = c as u32;
    u == 0x20 || u == 0x09 || u == 0x0A || u == 0x0D || u == 0x0B || u == 0x0C || u == 0x85
        || u == 0xA0 || u == 0x1680 || (0x2000 <= u && u <= 0x200A) || u == 0x2028 || u == 0x2029
        || u == 0x202F || u == 0x205F || u == 0x3000
}

/// A string is blank when every character is whitespace; the empty string
/// is blank.
pub open spec fn is_blank(s: Seq<char>) -> bool {
    forall|i: int| 0 <= i < s.len() ==> is_ws_char(s[i])
}

/// The characters of a string slice, in order.
pub fn chars_vec(s: &str) -> (r: Vec<char>)
    ensures
        r@ == s@,
{
    broadcast use vstd::string::group_string_axioms;

    let mut it = s.chars();
    let mut r: Vec<char> = Vec::new();
    loop
        invariant
            r@ + it.remaining() == s@,
            it.decrease() is Some,
        ensures
            r@ + it.remaining() == s@,
            it.remaining().len() == 0,
        decreases it.decrease()->0,
    {
        match it.next() {
            Some(c) => {
                r.push(c);
            },
            None => {
                break ;
            },
        }
    }
    proof {
        assert(r@ =~= s@);
    }
    r
}

/// Relies on `String::push`: appends exactly the given character to the end
/// of the string.
#[verifier::external_body]
pub(crate) fn push_char(s: &mut String, c: char)
    ensures
        final(s)@ == old(s)@.push(c),
{
    s.push(c)
}

/// A `String` holding exactly the given characters.
pub fn string_from_chars(cs: &[char]) -> (r: String)
    ensures
        r@ == cs@,
{
    let mut r = String::new();
    let mut i: usize = 0;
    while i < cs.len()
        invariant
            i <= cs@.len(),
            r@ == cs@.take(i as int),
        decreases cs@.len() - i,
    {
        push_char(&mut r, cs[i]);
        i = i + 1;
        proof {
            assert(r@ =~= cs@.take(i as int));
        }
    }
    proof {
        assert(cs@.take(cs@.len() as int) =~= cs@);
    }
    r
}

/// A copy of `v[from..to]`.
pub fn subvec(v: &[char], from: usize, to: usize) -> (r: Vec<char>)
    requires
        from <= to <= v@.len(),
    ensures
        r@ == v@.subrange(from as int, to as int),
{
    let mut r: Vec<char> = Vec::new();
    let mut i: usize = from;
    while i < to
        invariant
            from <= i <= to <= v@.len(),
            r@ == v@.subrange(from as int, i as int),
        decreases to - i,
    {
        r.push(v[i]);
        i = i + 1;
        proof {
            assert(r@ =~= v@.subrange(from as int, i as int));
        }
    }
    r
}

/// The prefix of `s` holding at most `max_chars` characters, whole
/// characters only.
pub fn truncate_str(s: &str, max_chars: usize) -> (r: &str)
    ensures
        r@ == s@.take(if max_chars <= s@.len() {
            max_chars as int
        } else {
            s@.len() as int
        }),
{
    let n = s.unicode_len();
    let end = if max_chars < n {
        max_chars
    } else {
        n
    };
    let r = s.substring_char(0, end);
    proof {
        assert(r@ =~= s@.take(end as int));
    }
    r
}

/// `s` without leading whitespace.
pub open spec fn trim_start_spec(s: Seq<char>) -> Seq<char>
    decreases s.len(),
{
    if s.len() > 0 && is_ws_char(s[0]) {
        trim_start_spec(s.drop_first())
    } else {
        s
    }
}

/// `s` without trailing whitespace.
pub open spec fn trim_end_spec(s: Seq<char>) -> Seq<char>
    decreases s.len(),
{
    if s.len() > 0 && is_ws_char(s.last()) {
        trim_end_spec(s.drop_last())
    } else {
        s
    }
}

/// Dropping leading whitespace never lengthens a string.
pub proof fn lemma_trim_start_len(s: Seq<char>)
    ensures
        trim_start_spec(s).len() <= s.len(),
    decreases s.len(),
{
    if s.len() > 0 && is_ws_char(s[0]) {
        lemma_trim_start_len(s.drop_first());
    }
}

/// `s` without leading or trailing whitespace, as `str::trim` leaves it.
pub open spec fn trim_spec(s: Seq<char>) -> Seq<char> {
    trim_end_spec(trim_start_spec(s))
}

pub proof fn lemma_trim_start_skip(s: Seq<char>, i: int)
    requires
        0 <= i <= s.len(),
        forall|k: int| 0 <= k < i ==> is_ws_char(s[k]),
        i < s.len() ==> !is_ws_char(s[i]),
    ensures
        trim_start_spec(s) == s.subrange(i, s.len() as int),
    decreases i,
{
    if i == 0 {
        assert(s.subrange(0, s.len() as int) =~= s);
    } else {
        assert(is_ws_char(s[0]));
        lemma_trim_start_skip(s.drop_first(), i - 1);
        assert(s.drop_first().subrange(i - 1, s.drop_first().len() as int) =~= s.subrange(
            i,
            s.len() as int,
        ));
    }
}

proof fn lemma_trim_end_keep(s: Seq<char>, j: int)
    requires
        0 <= j <= s.len(),
        forall|k: int| j <= k < s.len() ==> is_ws_char(s[k]),
        j > 0 ==> !is_ws_char(s[j - 1]),
    ensures
        trim_end_spec(s) == s.subrange(0, j),
    decreases s.len(),
{
    if j == s.len() {
        if s.len() == 0 {
            assert(s.subrange(0, 0) =~= s);
        } else {
            assert(!is_ws_char(s.last()));
            assert(s.subrange(0, j) =~= s);
        }
    } else {
        assert(is_ws_char(s.last()));
        lemma_trim_end_keep(s.drop_last(), j);
        assert(s.drop_last().subrange(0, j) =~= s.subrange(0, j));
    }
}

/// The characters of `v` without leading or trailing whitespace.
pub fn trim_chars(v: &[char]) -> (r: Vec<char>)
    ensures
        r@ == trim_spec(v@),
{
    let len = v.len();
    let mut i: usize = 0;
    while i < len && is_ws(v[i])
        invariant
            0 <= i <= len == v@.len(),
            forall|k: int| 0 <= k < i ==> is_ws_char(v@[k]),
        decreases len - i,
    {
        i = i + 1;
    }
    let mut j: usize = len;
    while j > i && is_ws(v[j - 1])
        invariant
            i <= j <= len == v@.len(),
            forall|k: int| j <= k < len ==> is_ws_char(v@[k]),
        decreases j,
    {
        j = j - 1;
    }
    proof {
        lemma_trim_start_skip(v@, i as int);
        let s1 = v@.subrange(i as int, v@.len() as int);
        lemma_trim_end_keep(s1, j - i);
        assert(s1.subrange(0, j - i) =~= v@.subrange(i as int, j as int));
    }
    subvec(v, i, j)
}

/// First occurrence of the two-character pattern `". "`, if any.
pub fn find_dot_space(v: &[char]) -> (r: Option<usize>)
    ensures
        match r {
            Some(i) => i + 1 < v@.len() && v@[i as int] == '.' && v@[i as int + 1] == ' '
                && forall|j: int|
                0 <= j < i ==> !((#[trigger] v@[j]) == '.' && v@[j + 1] == ' '),
            None => forall|j: int|
                0 <= j && j + 1 < v@.len() ==> !((#[trigger] v@[j]) == '.' && v@[j + 1] == ' '),
        },
{
    let n = v.len();
    if n < 2 {
        return None;
    }
    let mut i: usize = 0;
    while i + 1 < n
        invariant
            n == v@.len(),
            0 <= i,
            i + 1 <= n,
            forall|j: int| 0 <= j < i ==> !((#[trigger] v@[j]) == '.' && v@[j + 1] == ' '),
        decreases v@.len() - i,
    {
        if v[i] == '.' && v[i + 1] == ' ' {
            return Some(i);
        }
        i = i + 1;
    }
    None
}

/// Decimal digit.
pub open spec fn is_digit_char(c: char) -> bool {
    0x30 <= c as u32 <= 0x39
}

/// Numeric value of a decimal digit.
pub open spec fn digit_val(c: char) -> nat {
    (c as u32 - 0x30) as nat
}

/// The digit character for `n` in `0..10`.
pub open spec fn digit_char(n: nat) -> char {
    if n == 0 {
        '0'
    } else if n == 1 {
        '1'
    } else if n == 2 {
        '2'
    } else if n == 3 {
        '3'
    } else if n == 4 {
        '4'
    } else if n == 5 {
        '5'
    } else if n == 6 {
        '6'
    } else if n == 7 {
        '7'
    } else if n == 8 {
        '8'
    } else {
        '9'
    }
}

/// Value of a string of decimal digits, most significant first.
pub open spec fn dec_val(s: Seq<char>) -> nat
    decreases s.len(),
{
    if s.len() == 0 {
        0
    } else {
        dec_val(s.drop_last()) * 10 + digit_val(s.last())
    }
}

pub open spec fn all_digits(s: Seq<char>) -> bool {
    forall|i: int| 0 <= i < s.len() ==> is_digit_char(s[i])
}

/// The shape `str::parse::<usize>` accepts: an optional `+` sign followed
/// by at least one decimal digit.
pub open spec fn usize_dec_format(s: Seq<char>) -> bool {
    if s.len() > 0 && s[0] == '+' {
        s.len() > 1 && all_digits(s.drop_first())
    } else {
        s.len() > 0 && all_digits(s)
    }
}

/// The digit portion, with any leading `+` sign removed.
pub open spec fn dec_digits_of(s: Seq<char>) -> Seq<char> {
    if s.len() > 0 && s[0] == '+' {
        s.drop_first()
    } else {
        s
    }
}

proof fn lemma_dec_val_take_le(s: Seq<char>, i: int, j: int)
    requires
        0 <= i <= j <= s.len(),
    ensures
        dec_val(s.take(i)) <= dec_val(s.take(j)),
    decreases j - i,
{
    if i < j {
        lemma_dec_val_take_le(s, i, j - 1);
        assert(s.take(j).drop_last() =~= s.take(j - 1));
        assert(dec_val(s.take(j)) == dec_val(s.take(j - 1)) * 10 + digit_val(s.take(j).last()));
    }
}

/// Decimal parse in the manner of `str::parse::<usize>`, except that no
/// leading or trailing whitespace is accepted (callers trim first) and a
/// minus sign is simply a malformed character.
#[verifier::rlimit(50)]
pub fn parse_usize_chars(v: &[char]) -> (r: Option<usize>)
    ensures
        match r {
            Some(n) => usize_dec_format(v@) && n == dec_val(dec_digits_of(v@)),
            None => !usize_dec_format(v@) || dec_val(dec_digits_of(v@)) > usize::MAX,
        },
{
    let ghost digits = dec_digits_of(v@);
    let start: usize = if v.len() > 0 && v[0] == '+' {
        1
    } else {
        0
    };
    if v.len() == start {
        return None;
    }
    proof {
        assert(digits =~= v@.subrange(start as int, v@.len() as int));
    }
    let mut acc: usize = 0;
    let mut i: usize = start;
    while i < v.len()
        invariant
            start <= i <= v@.len(),
            start <= 1,
            (start == 1) <==> (v@.len() > 0 && v@[0] == '+'),
            digits == dec_digits_of(v@),
            digits =~= v@.subrange(start as int, v@.len() as int),
            forall|k: int| start <= k < i ==> is_digit_char(v@[k]),
            acc == dec_val(digits.take(i - start)),
        decreases v@.len() - i,
    {
        let c = v[i];
        let u = c as u32;
        if !(0x30 <= u && u <= 0x39) {
            proof {
                assert(!is_digit_char(v@[i as int]));
                assert(digits[i - start] == v@[i as int]);
                if start == 1 {
                    assert(v@.drop_first() =~= digits);
                }
            }
            return None;
        }
        let d = (u - 0x30) as usize;
        let next = match acc.checked_mul(10) {
            Some(m) => m.checked_add(d),
            None => None,
        };
        match next {
            Some(n) => {
                proof {
                    assert(digits.take(i + 1 - start).drop_last() =~= digits.take(i - start));
                    assert(digits.take(i + 1 - start).last() == v@[i as int]);
                }
                acc = n;
                i = i + 1;
            },
            None => {
                proof {
                    assert(digits.take(i + 1 - start).drop_last() =~= digits.take(i - start));
                    assert(digits.take(i + 1 - start).last() == v@[i as int]);
                    assert(digit_val(v@[i as int]) == d as nat);
                    assert(acc * 10 + d > usize::MAX);
                    assert(dec_val(digits.take(i + 1 - start)) == acc * 10 + digit_val(
                        v@[i as int],
                    ));
                    assert(dec_val(digits.take(i + 1 - start)) > usize::MAX);
                    lemma_dec_val_take_le(digits, i + 1 - start, digits.len() as int);
                    assert(digits.take(digits.len() as int) =~= digits);
                    assert(dec_val(digits) > usize::MAX);
                    assert(dec_val(dec_digits_of(v@)) > usize::MAX);
                }
                return None;
            },
        }
    }
    proof {
        assert(digits.take(digits.len() as int) =~= digits);
    }
    Some(acc)
}

/// Decimal image of `n`, most significant digit first, no sign.
pub open spec fn dec_str(n: nat) -> Seq<char>
    decreases n,
{
    if n < 10 {
        seq![digit_char(n)]
    } else {
        dec_str(n / 10).push(digit_char(n % 10))
    }
}

fn digit_char_exec(d: usize) -> (c: char)
    requires
        d < 10,
    ensures
        c == digit_char(d as nat),
{
    if d == 0 {
        '0'
    } else if d == 1 {
        '1'
    } else if d == 2 {
        '2'
    } else if d == 3 {
        '3'
    } else if d == 4 {
        '4'
    } else if d == 5 {
        '5'
    } else if d == 6 {
        '6'
    } else if d == 7 {
        '7'
    } else if d == 8 {
        '8'
    } else {
        '9'
    }
}

fn push_dec(n: usize, out: &mut Vec<char>)
    ensures
        final(out)@ == old(out)@ + dec_str(n as nat),
    decreases n,
{
    if n < 10 {
        out.push(digit_char_exec(n));
        proof {
            assert(out@ =~= old(out)@ + dec_str(n as nat));
        }
    } else {
        push_dec(n / 10, out);
        out.push(digit_char_exec(n % 10));
        proof {
            assert(out@ =~= old(out)@ + dec_str(n as nat));
        }
    }
}

/// The decimal digits of `n`.
pub fn format_usize(n: usize) -> (r: Vec<char>)
    ensures
        r@ == dec_str(n as nat),
{
    let mut out: Vec<char> = Vec::new();
    push_dec(n, &mut out);
    proof {
        assert(out@ =~= dec_str(n as nat));
    }
    out
}

proof fn lemma_dec_str_digits(n: nat)
    ensures
        dec_str(n).len() >= 1,
        all_digits(dec_str(n)),
        dec_val(dec_str(n)) == n,
    decreases n,
{
    if n < 10 {
        assert(dec_str(n) =~= seq![digit_char(n)]);
        assert(is_digit_char(digit_char(n)));
        assert(dec_str(n).drop_last() =~= Seq::<char>::empty());
        assert(dec_val(Seq::<char>::empty()) == 0);
        assert(digit_val(digit_char(n)) == n);
        assert(dec_val(dec_str(n)) == dec_val(dec_str(n).drop_last()) * 10 + digit_val(
            dec_str(n).last(),
        ));
    } else {
        lemma_dec_str_digits(n / 10);
        let s = dec_str(n);
        assert(s == dec_str(n / 10).push(digit_char(n % 10)));
        assert(s.drop_last() =~= dec_str(n / 10));
        assert(s.last() == digit_char(n % 10));
        assert(digit_val(digit_char(n % 10)) == n % 10);
        assert(forall|i: int|
            0 <= i < s.len() ==> is_digit_char(#[trigger] s[i])) by {
            assert(forall|i: int|
                0 <= i < dec_str(n / 10).len() ==> is_digit_char(#[trigger] dec_str(n / 10)[i]));
            assert(forall|i: int| 0 <= i < s.len() - 1 ==> s[i] == dec_str(n / 10)[i]);
        }
    }
}

/// Decimal round trip: the digits written for a number parse back to
/// exactly that number, so `format_usize` and `parse_usize_chars`
/// invert each other.
pub proof fn lemma_decimal_round_trip(n: usize)
    ensures
        usize_dec_format(dec_str(n as nat)),
        dec_val(dec_digits_of(dec_str(n as nat))) == n,
{
    lemma_dec_str_digits(n as nat);
    let s = dec_str(n as nat);
    assert(s[0] != '+') by {
        assert(is_digit_char(s[0]));
    }
}

/// Index of the first newline in `s`, or `s.len()` if there is none.
pub open spec fn first_nl(s: Seq<char>) -> nat
    decreases s.len(),
{
    if s.len() == 0 {
        0
    } else if s[0] == '\n' {
        0
    } else {
        1 + first_nl(s.drop_first())
    }
}

/// One trailing carriage return removed, as `str::lines` strips it from a
/// segment that ended in a newline.
pub open spec fn strip_cr(l: Seq<char>) -> Seq<char> {
    if l.len() > 0 && l.last() == '\r' {
        l.drop_last()
    } else {
        l
    }
}

/// The lines of `s` as `str::lines` yields them: split at `\n`, a carriage
/// return directly before the split removed, no empty line after a final
/// newline.
pub open spec fn lines_spec(s: Seq<char>) -> Seq<Seq<char>>
    decreases s.len(),
{
    if s.len() == 0 {
        Seq::empty()
    } else {
        let i = first_nl(s) as int;
        if i < s.len() {
            seq![strip_cr(s.take(i))] + lines_spec(s.skip(i + 1))
        } else {
            seq![s]
        }
    }
}

/// The views of a sequence of character vectors.
pub open spec fn char_views(ls: Seq<Vec<char>>) -> Seq<Seq<char>> {
    ls.map_values(|l: Vec<char>| l@)
}

fn find_nl_from(v: &[char], pos: usize) -> (r: usize)
    requires
        pos <= v@.len(),
    ensures
        pos <= r <= v@.len(),
        r - pos == first_nl(v@.skip(pos as int)),
        r < v@.len() ==> v@[r as int] == '\n',
{
    let n = v.len();
    let mut i = pos;
    while i < n && v[i] != '\n'
        invariant
            pos <= i <= n == v@.len(),
            first_nl(v@.skip(pos as int)) == i - pos + first_nl(v@.skip(i as int)),
        decreases n - i,
    {
        proof {
            assert(v@.skip(i as int).drop_first() =~= v@.skip(i as int + 1));
        }
        i = i + 1;
    }
    proof {
        if i < n {
            assert(v@.skip(i as int)[0] == v@[i as int]);
            assert(first_nl(v@.skip(i as int)) == 0);
        } else {
            assert(v@.skip(i as int).len() == 0);
        }
    }
    i
}

/// The lines of `v`, in order.
pub fn lines_vec(v: &[char]) -> (r: Vec<Vec<char>>)
    ensures
        char_views(r@) == lines_spec(v@),
{
    let n = v.len();
    let mut r: Vec<Vec<char>> = Vec::new();
    let mut pos: usize = 0;
    proof {
        assert(v@.skip(0) =~= v@);
        assert(char_views(r@) + lines_spec(v@) =~= lines_spec(v@));
    }
    while pos < n
        invariant
            pos <= n == v@.len(),
            char_views(r@) + lines_spec(v@.skip(pos as int)) == lines_spec(v@),
        decreases n - pos,
    {
        let ghost s = v@.skip(pos as int);
        let e = find_nl_from(v, pos);
        if e < n {
            let line_end = if e > pos && v[e - 1] == '\r' {
                e - 1
            } else {
                e
            };
            let line = subvec(v, pos, line_end);
            proof {
                assert(s.take(e - pos) =~= v@.subrange(pos as int, e as int));
                assert(strip_cr(s.take(e - pos)) =~= v@.subrange(pos as int, line_end as int));
                assert(lines_spec(s) == seq![strip_cr(s.take(e - pos))] + lines_spec(
                    s.skip(e - pos + 1),
                ));
                assert(s.skip(e - pos + 1) =~= v@.skip(e as int + 1));
            }
            let ghost old_r = r@;
            r.push(line);
            proof {
                assert(char_views(r@) =~= char_views(old_r).push(line@));
                assert(char_views(old_r).push(line@) + lines_spec(v@.skip(e as int + 1))
                    =~= char_views(old_r) + lines_spec(s));
            }
            pos = e + 1;
        } else {
            let line = subvec(v, pos, n);
            proof {
                assert(line@ =~= s);
                assert(lines_spec(s) == seq![s]);
            }
            let ghost old_r = r@;
            r.push(line);
            proof {
                assert(char_views(r@) =~= char_views(old_r).push(line@));
                assert(char_views(old_r).push(line@) + lines_spec(v@.skip(n as int))
                    =~= char_views(old_r) + lines_spec(s));
                assert(v@.skip(n as int).len() == 0);
            }
            pos = n;
        }
    }
    proof {
        assert(v@.skip(pos as int).len() == 0);
        assert(char_views(r@) + lines_spec(v@.skip(pos as int)) =~= char_views(r@));
    }
    r
}

} // verus!
