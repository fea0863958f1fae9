//! Translation batch planning and the backend reply formats.
//!
//! A batch of recognized texts goes to the backend as one request. Empty
//! or whitespace-only entries are never sent and always come back
//! untranslated; the reply is mapped back so that the result has one
//! slot per input, in the input's order. The chat-style backends number
//! the lines of the prompt and are parsed back by those numbers.

use vstd::prelude::*;

verus! {

use crate::text::dec_str;
use crate::text::format_usize;
use crate::text::is_blank;
use crate::text::is_ws;
use crate::text::is_ws_char;
use crate::text::chars_vec;
use crate::text::string_from_chars;
use crate::pipeline::views_of;
use vstd::pervasive::VecAdditionalExecFns;
use vstd::string::StringExecFns;

/// Which backend a translator sends its batches to.
pub enum TranslatorBackend {
    DeepL { api_key: String },
    LocalLLM { endpoint: String, model: String },
    Groq { api_key: String, model: String },
}

/// A translator: the chosen backend and its credentials. The transport
/// lives with the caller; the planning and parsing around it live here.
pub struct Translator {
    pub backend: TranslatorBackend,
}

impl Translator {
    /// A translator against the DeepL HTTP API.
    pub fn new_deepl(api_key: String) -> (r: Translator)
        ensures
            r.backend == (TranslatorBackend::DeepL { api_key }),
    {
        Translator { backend: TranslatorBackend::DeepL { api_key } }
    }

    /// A translator against a local completion endpoint.
    pub fn new_local(endpoint: String, model: String) -> (r: Translator)
        ensures
            r.backend == (TranslatorBackend::LocalLLM { endpoint, model }),
    {
        Translator { backend: TranslatorBackend::LocalLLM { endpoint, model } }
    }

    /// A translator against a chat-completion API.
    pub fn new_groq(api_key: String, model: String) -> (r: Translator)
        ensures
            r.backend == (TranslatorBackend::Groq { api_key, model }),
    {
        Translator { backend: TranslatorBackend::Groq { api_key, model } }
    }
}

/// Whether a DeepL key is a free-plan key, which must be sent to the
/// free API host: free keys end in `:fx`.
pub fn deepl_key_is_free(api_key: &String) -> (r: bool)
    ensures
        r == (api_key@.len() >= 3 && api_key@.subrange(
            api_key@.len() - 3,
            api_key@.len() as int,
        ) == seq![':', 'f', 'x']),
{
    let v = chars_vec(api_key.as_str());
    let n = v.len();
    if n < 3 {
        return false;
    }
    let r = v[n - 3] == ':' && v[n - 2] == 'f' && v[n - 1] == 'x';
    proof {
        if r {
            assert(api_key@.subrange(api_key@.len() - 3, api_key@.len() as int) =~= seq![
                ':',
                'f',
                'x',
            ]);
        } else {
            assert(api_key@.subrange(api_key@.len() - 3, api_key@.len() as int)[0] == api_key@[
                api_key@.len() - 3]);
        }
    }
    r
}

/// Token budget for one completion request: 64 tokens per line, capped
/// at 1024.
pub fn completion_max_tokens(batch_len: usize) -> (r: u32)
    ensures
        r == (if batch_len * 64 < 1024 {
            (batch_len * 64) as u32
        } else {
            1024u32
        }),
{
    if batch_len < 16 {
        (batch_len as u32) * 64
    } else {
        1024
    }
}

/// Token budget for one chat request: 128 tokens per line, capped at
/// 2048.
pub fn chat_max_tokens(batch_len: usize) -> (r: u32)
    ensures
        r == (if batch_len * 128 < 2048 {
            (batch_len * 128) as u32
        } else {
            2048u32
        }),
{
    if batch_len < 16 {
        (batch_len as u32) * 128
    } else {
        2048
    }
}

/// Whether the string holds nothing but whitespace.
pub fn blank_text(s: &String) -> (r: bool)
    ensures
        r == is_blank(s@),
{
    let v = chars_vec(s.as_str());
    let n = v.len();
    let mut i: usize = 0;
    while i < n
        invariant
            i <= n == v@.len(),
            v@ == s@,
            forall|k: int| 0 <= k < i ==> is_ws_char(s@[k]),
        decreases n - i,
    {
        if !is_ws(v[i]) {
            return false;
        }
        i = i + 1;
    }
    true
}

/// A sound plan for one batch: `idxs` are exactly the positions of the
/// non-blank inputs, in increasing order, and `reqs` their texts.
pub open spec fn batch_plan_ok(ts: Seq<Seq<char>>, idxs: Seq<usize>, reqs: Seq<Seq<char>>) -> bool {
    &&& idxs.len() == reqs.len()
    &&& forall|a: int, b: int| 0 <= a < b < idxs.len() ==> idxs[a] < idxs[b]
    &&& forall|k: int|
        0 <= k < idxs.len() ==> (#[trigger] idxs[k]) < ts.len() && reqs[k] == ts[idxs[k] as int]
            && !is_blank(reqs[k])
    &&& forall|i: int|
        0 <= i < ts.len() && !is_blank(#[trigger] ts[i]) ==> exists|k: int|
            0 <= k < idxs.len() && idxs[k] == i
}

/// What will be sent to the backend for one batch of inputs.
pub struct BatchPlan {
    /// Positions of the entries to send, in the input's order.
    pub indices: Vec<usize>,
    /// The texts to send, one per index.
    pub requests: Vec<String>,
}

/// Plan one batch: pick out the entries worth sending. Blank and empty
/// entries are left behind.
pub fn plan_batch(texts: &Vec<String>) -> (p: BatchPlan)
    ensures
        batch_plan_ok(views_of(texts@), p.indices@, views_of(p.requests@)),
{
    let ghost ts = views_of(texts@);
    let n = texts.len();
    let mut indices: Vec<usize> = Vec::new();
    let mut requests: Vec<String> = Vec::new();
    let mut i: usize = 0;
    while i < n
        invariant
            i <= n == texts@.len(),
            ts == views_of(texts@),
            indices@.len() == requests@.len(),
            forall|a: int, b: int| 0 <= a < b < indices@.len() ==> indices@[a] < indices@[b],
            forall|k: int| 0 <= k < indices@.len() ==> (#[trigger] indices@[k]) < i,
            forall|k: int|
                0 <= k < indices@.len() ==> (#[trigger] indices@[k]) < ts.len()
                    && views_of(requests@)[k] == ts[indices@[k] as int] && !is_blank(
                    views_of(requests@)[k],
                ),
            forall|j: int|
                0 <= j < i && !is_blank(#[trigger] ts[j]) ==> exists|k: int|
                    0 <= k < indices@.len() && (#[trigger] indices@[k]) == j,
        decreases n - i,
    {
        let ghost old_idx = indices@;
        let ghost old_req = requests@;
        proof {
            assert(ts[i as int] == texts@[i as int]@);
        }
        if !blank_text(&texts[i]) {
            indices.push(i);
            requests.push(texts[i].clone());
            proof {
                assert(views_of(requests@) =~= views_of(old_req).push(ts[i as int]));
                assert(indices@[indices@.len() - 1] == i);
                assert forall|j: int|
                    0 <= j < i + 1 && !is_blank(#[trigger] ts[j]) implies exists|k: int|
                    0 <= k < indices@.len() && (#[trigger] indices@[k]) == j by {
                    if j == i {
                        assert(indices@[indices@.len() - 1] == j);
                    } else {
                        let k = choose|k: int|
                            0 <= k < old_idx.len() && (#[trigger] old_idx[k]) == j;
                        assert(indices@[k] == j);
                    }
                }
            }
        }
        i = i + 1;
    }
    BatchPlan { indices, requests }
}

pub open spec fn opt_view(o: Option<String>) -> Option<Seq<char>> {
    match o {
        Some(s) => Some(s@),
        None => None,
    }
}

pub open spec fn opt_views(s: Seq<Option<String>>) -> Seq<Option<Seq<char>>> {
    s.map_values(|o: Option<String>| opt_view(o))
}

/// Map one batch's reply back onto the inputs: slot `indices[k]` takes
/// reply `k`; every other slot, including every blank input's, stays
/// untranslated, and a reply shorter than the request list leaves the
/// unanswered tail untranslated.
pub fn assemble_results(
    total: usize,
    indices: &Vec<usize>,
    translated: &Vec<Option<String>>,
) -> (r: Vec<Option<String>>)
    requires
        forall|k: int| 0 <= k < indices@.len() ==> (#[trigger] indices@[k]) < total,
        forall|a: int, b: int| 0 <= a < b < indices@.len() ==> indices@[a] < indices@[b],
    ensures
        r@.len() == total,
        forall|k: int|
            0 <= k < indices@.len() ==> opt_view(#[trigger] r@[indices@[k] as int]) == (if k
                < translated@.len() {
                opt_view(translated@[k])
            } else {
                None
            }),
        forall|i: int|
            0 <= i < total && !(exists|k: int| 0 <= k < indices@.len() && indices@[k] == i)
                ==> (#[trigger] r@[i]) is None,
{
    let mut r: Vec<Option<String>> = Vec::new();
    let mut i: usize = 0;
    while i < total
        invariant
            i <= total,
            r@.len() == i,
            forall|j: int| 0 <= j < i ==> (#[trigger] r@[j]) is None,
        decreases total - i,
    {
        r.push(None);
        i = i + 1;
    }
    let m = indices.len();
    let bound = if translated.len() < m {
        translated.len()
    } else {
        m
    };
    let mut k: usize = 0;
    while k < bound
        invariant
            k <= bound,
            bound == (if translated@.len() < indices@.len() {
                translated@.len()
            } else {
                indices@.len()
            }),
            r@.len() == total,
            forall|t: int| 0 <= t < indices@.len() ==> (#[trigger] indices@[t]) < total,
            forall|a: int, b: int| 0 <= a < b < indices@.len() ==> indices@[a] < indices@[b],
            forall|t: int|
                0 <= t < k ==> opt_view(#[trigger] r@[indices@[t] as int]) == opt_view(
                    translated@[t],
                ),
            forall|i: int|
                0 <= i < total && !(exists|t: int| 0 <= t < k && indices@[t] == i) ==> (
                #[trigger] r@[i]) is None,
        decreases bound - k,
    {
        let idx = indices[k];
        match &translated[k] {
            Some(s) => {
                r.set(idx, Some(s.clone()));
            },
            None => {
                r.set(idx, None);
            },
        }
        proof {
            assert(forall|a: int, b: int|
                0 <= a < indices@.len() && 0 <= b < indices@.len() && a != b ==> indices@[a]
                    != indices@[b]);
        }
        k = k + 1;
    }
    proof {
        assert forall|t: int|
            bound <= t < indices@.len() implies (#[trigger] r@[indices@[t] as int]) is None by {
            if exists|u: int| 0 <= u < bound && (#[trigger] indices@[u]) == indices@[t] {
                let u = choose|u: int| 0 <= u < bound && (#[trigger] indices@[u]) == indices@[t];
                assert(indices@[u] < indices@[t]);
            }
        }
    }
    r
}

/// Blank inputs never reach the backend and always come back
/// untranslated: in any sound batch plan every request is non-blank,
/// and any reply, assembled back, leaves each blank input's slot empty
/// while keeping one slot per input in the input's order.
pub proof fn lemma_blank_entries_untranslated(
    ts: Seq<Seq<char>>,
    idxs: Seq<usize>,
    reqs: Seq<Seq<char>>,
    r: Seq<Option<Seq<char>>>,
)
    requires
        batch_plan_ok(ts, idxs, reqs),
        r.len() == ts.len(),
        forall|i: int|
            0 <= i < r.len() && !(exists|k: int| 0 <= k < idxs.len() && idxs[k] == i) ==> (
            #[trigger] r[i]) is None,
    ensures
        forall|k: int| 0 <= k < reqs.len() ==> !is_blank(#[trigger] reqs[k]),
        forall|i: int| 0 <= i < ts.len() && is_blank(#[trigger] ts[i]) ==> r[i] is None,
{
    assert forall|k: int| 0 <= k < reqs.len() implies !is_blank(#[trigger] reqs[k]) by {
        assert(idxs[k] < ts.len());
    }
    assert forall|i: int| 0 <= i < ts.len() && is_blank(#[trigger] ts[i]) implies r[i] is None by {
        if exists|k: int| 0 <= k < idxs.len() && idxs[k] == i {
            let k = choose|k: int| 0 <= k < idxs.len() && idxs[k] == i;
            assert(reqs[k] == ts[i]);
            assert(!is_blank(reqs[k]));
        }
    }
}

/// The numbered line `n. text` of a chat-style prompt.
pub open spec fn numbered_line(n: nat, t: Seq<char>) -> Seq<char> {
    dec_str(n) + seq!['.', ' '] + t
}

/// The whole numbered prompt block: one line per text, numbered from 1,
/// joined with newlines.
pub open spec fn numbered_block(ts: Seq<Seq<char>>) -> Seq<char>
    decreases ts.len(),
{
    if ts.len() == 0 {
        Seq::empty()
    } else if ts.len() == 1 {
        numbered_line(1, ts[0])
    } else {
        numbered_block(ts.drop_last()) + seq!['\n'] + numbered_line(ts.len() as nat, ts.last())
    }
}

/// Build the numbered prompt block the chat-style backends receive.
pub fn build_numbered_block(texts: &Vec<String>) -> (r: String)
    ensures
        r@ == numbered_block(views_of(texts@)),
{
    let ghost ts = views_of(texts@);
    let n = texts.len();
    let mut r = String::new();
    let mut i: usize = 0;
    while i < n
        invariant
            i <= n == texts@.len(),
            ts == views_of(texts@),
            r@ == numbered_block(ts.take(i as int)),
        decreases n - i,
    {
        proof {
            assert(ts.take(i + 1).drop_last() =~= ts.take(i as int));
            assert(ts.take(i + 1).last() == ts[i as int]);
            assert(ts.take(i + 1)[0] == ts[0]);
        }
        if i > 0 {
            crate::text::push_char(&mut r, '\n');
        }
        let num = format_usize(i + 1);
        r.append(string_from_chars(num.as_slice()).as_str());
        crate::text::push_char(&mut r, '.');
        crate::text::push_char(&mut r, ' ');
        r.append(texts[i].as_str());
        proof {
            assert(r@ =~= numbered_block(ts.take(i + 1)));
        }
        i = i + 1;
    }
    proof {
        assert(ts.take(n as int) =~= ts);
    }
    r
}

/// Index of the first occurrence of `". "`, or `s.len()` if there is
/// none.
pub open spec fn first_ds(s: Seq<char>) -> nat
    decreases s.len(),
{
    if s.len() < 2 {
        s.len()
    } else if s[0] == '.' && s[1] == ' ' {
        0
    } else {
        1 + first_ds(s.drop_first())
    }
}

proof fn lemma_first_ds_at(s: Seq<char>, i: int)
    requires
        0 <= i,
        i + 1 < s.len(),
        s[i] == '.',
        s[i + 1] == ' ',
        forall|j: int| 0 <= j < i ==> !((#[trigger] s[j]) == '.' && s[j + 1] == ' '),
    ensures
        first_ds(s) == i,
    decreases i,
{
    if i == 0 {
    } else {
        lemma_first_ds_at(s.drop_first(), i - 1);
    }
}

proof fn lemma_first_ds_none(s: Seq<char>)
    requires
        forall|j: int| 0 <= j && j + 1 < s.len() ==> !((#[trigger] s[j]) == '.' && s[j + 1] == ' '),
    ensures
        first_ds(s) == s.len(),
    decreases s.len(),
{
    if s.len() >= 2 {
        lemma_first_ds_none(s.drop_first());
    }
}

/// Whether a trimmed line opens a new numbered answer `n. text`, for a
/// batch of `count` requests: the part before the first `". "`, trimmed,
/// must parse as a number in `1..=count`; the answer text is what
/// follows the separator.
pub open spec fn match_numbered(t: Seq<char>, count: nat) -> Option<(int, Seq<char>)> {
    let i = first_ds(t) as int;
    if i + 1 < t.len() {
        let np = crate::text::trim_spec(t.take(i));
        let v = crate::text::dec_val(crate::text::dec_digits_of(np));
        if crate::text::usize_dec_format(np) && 1 <= v <= count {
            Some((v as int, t.skip(i + 2)))
        } else {
            None
        }
    } else {
        None
    }
}

/// The parser's running state: the answers fixed so far, and the open
/// answer (its number and the text gathered for it), if any.
pub ghost struct PnrState {
    pub results: Seq<Option<Seq<char>>>,
    pub cur: Option<(int, Seq<char>)>,
}

/// Close the open answer, if any: its gathered text, trimmed, lands in
/// its numbered slot.
pub open spec fn pnr_flush(st: PnrState) -> Seq<Option<Seq<char>>> {
    match st.cur {
        Some((num, txt)) => st.results.update(num - 1, Some(crate::text::trim_spec(txt))),
        None => st.results,
    }
}

/// One line of the reply: blank lines are skipped; a numbered line
/// closes the open answer and opens its own; any other line continues
/// the open answer, joined with a single space, and is dropped when no
/// answer is open.
pub open spec fn pnr_step(st: PnrState, line: Seq<char>, count: nat) -> PnrState {
    let t = crate::text::trim_spec(line);
    if t.len() == 0 {
        st
    } else {
        match match_numbered(t, count) {
            Some((num, txt)) => PnrState { results: pnr_flush(st), cur: Some((num, txt)) },
            None => match st.cur {
                Some((m, mt)) => PnrState {
                    results: st.results,
                    cur: Some((m, mt + seq![' '] + t)),
                },
                None => st,
            },
        }
    }
}

pub open spec fn pnr_fold(lines: Seq<Seq<char>>, st: PnrState, count: nat) -> PnrState
    decreases lines.len(),
{
    if lines.len() == 0 {
        st
    } else {
        pnr_fold(lines.drop_first(), pnr_step(st, lines[0], count), count)
    }
}

proof fn lemma_pnr_fold_snoc(lines: Seq<Seq<char>>, st: PnrState, count: nat, x: Seq<char>)
    ensures
        pnr_fold(lines.push(x), st, count) == pnr_step(pnr_fold(lines, st, count), x, count),
    decreases lines.len(),
{
    let lp = lines.push(x);
    if lines.len() == 0 {
        assert(lp.drop_first() =~= Seq::<Seq<char>>::empty());
        assert(lp[0] == x);
        assert(pnr_fold(lp, st, count) == pnr_fold(lp.drop_first(), pnr_step(st, x, count), count));
        assert(pnr_fold(lp.drop_first(), pnr_step(st, x, count), count) == pnr_step(
            st,
            x,
            count,
        ));
        assert(pnr_fold(lines, st, count) == st);
    } else {
        let st1 = pnr_step(st, lines[0], count);
        assert(lp.drop_first() =~= lines.drop_first().push(x));
        assert(lp[0] == lines[0]);
        assert(pnr_fold(lp, st, count) == pnr_fold(lp.drop_first(), st1, count));
        lemma_pnr_fold_snoc(lines.drop_first(), st1, count, x);
        assert(pnr_fold(lines.drop_first().push(x), st1, count) == pnr_step(
            pnr_fold(lines.drop_first(), st1, count),
            x,
            count,
        ));
        assert(pnr_fold(lines, st, count) == pnr_fold(lines.drop_first(), st1, count));
    }
}

/// What `parse_numbered_response` returns: the numbered answers of the
/// reply, one optional slot per request. A reply that carries no line
/// numbers at all still answers a single-request batch whole, when it is
/// not blank.
pub open spec fn pnr_spec(raw: Seq<char>, count: nat) -> Seq<Option<Seq<char>>> {
    let init = PnrState { results: Seq::new(count, |i: int| None), cur: None };
    let fin = pnr_flush(pnr_fold(crate::text::lines_spec(raw), init, count));
    if count == 1 && fin[0] is None && crate::text::trim_spec(raw).len() > 0 {
        fin.update(0, Some(crate::text::trim_spec(raw)))
    } else {
        fin
    }
}

fn append_chars(dst: &mut Vec<char>, src: &[char])
    ensures
        final(dst)@ == old(dst)@ + src@,
{
    let n = src.len();
    let mut i: usize = 0;
    while i < n
        invariant
            i <= n == src@.len(),
            dst@ == old(dst)@ + src@.take(i as int),
        decreases n - i,
    {
        dst.push(src[i]);
        i = i + 1;
        proof {
            assert(dst@ =~= old(dst)@ + src@.take(i as int));
        }
    }
    proof {
        assert(old(dst)@ + src@.take(n as int) =~= old(dst)@ + src@);
    }
}

/// The open answer as the parser state carries it; number 0 stands for
/// no open answer.
pub open spec fn cur_of(num: int, txt: Seq<char>) -> Option<(int, Seq<char>)> {
    if num == 0 {
        None
    } else {
        Some((num, txt))
    }
}

/// Parse a backend reply of numbered lines, `n. text`, one answer per
/// request of a batch of `count`. An answer may span lines: lines
/// without a number continue the answer opened above them. Answers are
/// trimmed; a slot whose number never appears stays unanswered. A reply
/// with no numbers at all still answers a one-request batch whole.
#[verifier::rlimit(80)]
pub fn parse_numbered_response(raw: &str, count: usize) -> (r: Vec<Option<String>>)
    ensures
        opt_views(r@) == pnr_spec(raw@, count as nat),
{
    let rawv = chars_vec(raw);
    let lines = crate::text::lines_vec(rawv.as_slice());
    let ghost lsv = crate::text::lines_spec(raw@);
    let ghost init = PnrState { results: Seq::new(count as nat, |i: int| None), cur: None };
    let mut results: Vec<Option<String>> = Vec::new();
    let mut i0: usize = 0;
    while i0 < count
        invariant
            i0 <= count,
            results@.len() == i0,
            forall|j: int| 0 <= j < i0 ==> (#[trigger] results@[j]) is None,
        decreases count - i0,
    {
        results.push(None);
        i0 = i0 + 1;
    }
    proof {
        assert(opt_views(results@) =~= init.results);
        assert(lsv.take(0) =~= Seq::<Seq<char>>::empty());
    }
    let mut cur_num: usize = 0;
    let mut cur_text: Vec<char> = Vec::new();
    let nl = lines.len();
    let mut li: usize = 0;
    while li < nl
        invariant
            li <= nl == lines@.len(),
            crate::text::char_views(lines@) == lsv,
            lsv == crate::text::lines_spec(raw@),
            rawv@ == raw@,
            results@.len() == count,
            cur_num <= count,
            init == (PnrState { results: Seq::new(count as nat, |i: int| None), cur: None }),
            (PnrState { results: opt_views(results@), cur: cur_of(cur_num as int, cur_text@) })
                == pnr_fold(lsv.take(li as int), init, count as nat),
        decreases nl - li,
    {
        let ghost st = pnr_fold(lsv.take(li as int), init, count as nat);
        proof {
            assert(lsv.take(li + 1) =~= lsv.take(li as int).push(lsv[li as int]));
            lemma_pnr_fold_snoc(lsv.take(li as int), init, count as nat, lsv[li as int]);
            assert(lines@[li as int]@ == lsv[li as int]);
        }
        let t = crate::text::trim_chars(lines[li].as_slice());
        let ghost tspec = crate::text::trim_spec(lsv[li as int]);
        if t.len() == 0 {
            proof {
                assert(pnr_step(st, lsv[li as int], count as nat) == st);
            }
        } else {
            let mut matched_num: usize = 0;
            let mut matched_text: Vec<char> = Vec::new();
            match crate::text::find_dot_space(t.as_slice()) {
                Some(dp) => {
                    proof {
                        lemma_first_ds_at(t@, dp as int);
                    }
                    let np = crate::text::trim_chars(
                        crate::text::subvec(t.as_slice(), 0, dp).as_slice(),
                    );
                    proof {
                        assert(np@ == crate::text::trim_spec(tspec.take(dp as int)));
                    }
                    match crate::text::parse_usize_chars(np.as_slice()) {
                        Some(num) => {
                            if 1 <= num && num <= count {
                                matched_num = num;
                                matched_text = crate::text::subvec(t.as_slice(), dp + 2, t.len());
                                proof {
                                    assert(matched_text@ =~= tspec.skip(dp + 2));
                                }
                            }
                        },
                        None => {
                        },
                    }
                },
                None => {
                    proof {
                        lemma_first_ds_none(t@);
                    }
                },
            }
            proof {
                assert(cur_of(matched_num as int, matched_text@) == match_numbered(
                    tspec,
                    count as nat,
                ));
            }
            if matched_num != 0 {
                if cur_num != 0 {
                    let tt = crate::text::trim_chars(cur_text.as_slice());
                    let ghost old_results = results@;
                    results.set(cur_num - 1, Some(string_from_chars(tt.as_slice())));
                    proof {
                        assert(opt_views(results@) =~= opt_views(old_results).update(
                            cur_num - 1,
                            Some(crate::text::trim_spec(cur_text@)),
                        ));
                    }
                }
                cur_num = matched_num;
                cur_text = matched_text;
            } else {
                if cur_num != 0 {
                    cur_text.push(' ');
                    append_chars(&mut cur_text, t.as_slice());
                    proof {
                        assert(cur_text@ =~= st.cur->Some_0.1 + seq![' '] + tspec);
                    }
                }
            }
        }
        li = li + 1;
    }
    proof {
        assert(lsv.take(nl as int) =~= lsv);
    }
    let ghost fin_st = pnr_fold(lsv, init, count as nat);
    if cur_num != 0 {
        let tt = crate::text::trim_chars(cur_text.as_slice());
        let ghost old_results = results@;
        results.set(cur_num - 1, Some(string_from_chars(tt.as_slice())));
        proof {
            assert(opt_views(results@) =~= opt_views(old_results).update(
                cur_num - 1,
                Some(crate::text::trim_spec(cur_text@)),
            ));
        }
    }
    proof {
        assert(opt_views(results@) == pnr_flush(fin_st));
    }
    if count == 1 {
        let first_missing = results[0].is_none();
        if first_missing {
            let tr = crate::text::trim_chars(rawv.as_slice());
            if tr.len() > 0 {
                let ghost old_results = results@;
                results.set(0, Some(string_from_chars(tr.as_slice())));
                proof {
                    assert(opt_views(results@) =~= opt_views(old_results).update(
                        0,
                        Some(crate::text::trim_spec(raw@)),
                    ));
                }
            }
        }
    }
    results
}

} // verus!
