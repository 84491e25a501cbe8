use vstd::prelude::*;
use vstd::string::StringExecFns;
use crate::text::{byte_len, chars_of, char_is_ws, is_ws, lead_ws, owned, string_of_range, trail_ws, trim, trim_ws, utf8_len};

verus! {

/// Characters that end a sentence.
pub open spec fn is_terminal(c: char) -> bool {
    c == '.' || c == '!' || c == '?'
}

/// Length of the run of whitespace in `s` that starts at `i`.
pub open spec fn ws_run(s: Seq<char>, i: int) -> nat
    decreases s.len() - i,
{
    if 0 <= i < s.len() && is_ws(s[i]) {
        1 + ws_run(s, i + 1)
    } else {
        0
    }
}

/// Length of the run of line breaks in `s` that starts at `i`.
pub open spec fn nl_run(s: Seq<char>, i: int) -> nat
    decreases s.len() - i,
{
    if 0 <= i < s.len() && s[i] == '\n' {
        1 + nl_run(s, i + 1)
    } else {
        0
    }
}

/// Length of the sentence separator that starts at `i`, or zero: whitespace that follows `.`,
/// `!` or `?`, or else a run of two or more line breaks.
pub open spec fn separator_len(s: Seq<char>, i: int) -> nat {
    if 0 < i < s.len() && is_terminal(s[i - 1]) && is_ws(s[i]) {
        ws_run(s, i)
    } else if 0 <= i && i + 1 < s.len() && s[i] == '\n' && s[i + 1] == '\n' {
        nl_run(s, i)
    } else {
        0
    }
}

/// The pieces of `s[start..]` between separators, scanning from `i`.
pub open spec fn pieces_from(s: Seq<char>, start: int, i: int) -> Seq<Seq<char>>
    decreases s.len() - i,
{
    if i < 0 || i >= s.len() {
        seq![s.subrange(start, s.len() as int)]
    } else if separator_len(s, i) > 0 && i + separator_len(s, i) <= s.len() {
        seq![s.subrange(start, i)] + pieces_from(s, i + separator_len(s, i), i + separator_len(s, i))
    } else {
        pieces_from(s, start, i + 1)
    }
}

/// The pieces trimmed, empty ones left out.
pub open spec fn tidy(p: Seq<Seq<char>>) -> Seq<Seq<char>> {
    p.map_values(|x: Seq<char>| trim_ws(x)).filter(|x: Seq<char>| x.len() > 0)
}

/// The sentences of `s`: its pieces between separators, trimmed, empty ones left out.
pub open spec fn sentences_of(s: Seq<char>) -> Seq<Seq<char>> {
    tidy(pieces_from(s, 0, 0))
}

proof fn lemma_ws_run_bound(s: Seq<char>, i: int)
    requires
        0 <= i <= s.len(),
    ensures
        i + ws_run(s, i) <= s.len(),
        forall|j: int| i <= j < i + ws_run(s, i) ==> is_ws(#[trigger] s[j]),
        i + ws_run(s, i) < s.len() ==> !is_ws(s[i + ws_run(s, i)]),
    decreases s.len() - i,
{
    if i < s.len() && is_ws(s[i]) {
        lemma_ws_run_bound(s, i + 1);
    }
}

proof fn lemma_nl_run_bound(s: Seq<char>, i: int)
    requires
        0 <= i <= s.len(),
    ensures
        i + nl_run(s, i) <= s.len(),
        forall|j: int| i <= j < i + nl_run(s, i) ==> #[trigger] s[j] == '\n',
        i + nl_run(s, i) < s.len() ==> s[i + nl_run(s, i)] != '\n',
    decreases s.len() - i,
{
    if i < s.len() && s[i] == '\n' {
        lemma_nl_run_bound(s, i + 1);
    }
}

proof fn lemma_ws_run_exact(s: Seq<char>, i: int, e: int)
    requires
        0 <= i <= e <= s.len(),
        forall|j: int| i <= j < e ==> is_ws(#[trigger] s[j]),
        e < s.len() ==> !is_ws(s[e]),
    ensures
        ws_run(s, i) == e - i,
    decreases e - i,
{
    if i < e {
        lemma_ws_run_exact(s, i + 1, e);
    }
}

proof fn lemma_nl_run_exact(s: Seq<char>, i: int, e: int)
    requires
        0 <= i <= e <= s.len(),
        forall|j: int| i <= j < e ==> #[trigger] s[j] == '\n',
        e < s.len() ==> s[e] != '\n',
    ensures
        nl_run(s, i) == e - i,
    decreases e - i,
{
    if i < e {
        lemma_nl_run_exact(s, i + 1, e);
    }
}

proof fn lemma_tidy_add(a: Seq<Seq<char>>, b: Seq<Seq<char>>)
    ensures
        tidy(a + b) == tidy(a) + tidy(b),
{
    let f = |x: Seq<char>| trim_ws(x);
    let p = |x: Seq<char>| x.len() > 0;
    assert((a + b).map_values(f) =~= a.map_values(f) + b.map_values(f));
    Seq::filter_distributes_over_add(a.map_values(f), b.map_values(f), p);
}

fn push_tidy(out: &mut Vec<String>, piece: &str)
    ensures
        final(out)@.map_values(|x: String| x@) == old(out)@.map_values(|x: String| x@) + tidy(seq![piece@]),
{
    let t = trim(piece);
    let ghost f = |x: Seq<char>| trim_ws(x);
    let ghost p = |x: Seq<char>| x.len() > 0;
    proof {
        assert(seq![piece@].map_values(f) =~= seq![trim_ws(piece@)]);
        reveal_with_fuel(Seq::filter, 2);
        assert(seq![trim_ws(piece@)].drop_last() =~= Seq::<Seq<char>>::empty());
    }
    if !t.as_str().is_empty() {
        out.push(t);
        assert(out@.map_values(|x: String| x@) =~= old(out)@.map_values(|x: String| x@) + tidy(seq![piece@]));
    } else {
        assert(out@.map_values(|x: String| x@) =~= old(out)@.map_values(|x: String| x@) + tidy(seq![piece@]));
    }
}

/// Splits text into sentences: at whitespace that follows `.`, `!` or `?`, and at runs of two
/// or more line breaks; each sentence is trimmed and empty ones are left out.
pub fn split_sentences(text: &str) -> (out: Vec<String>)
    ensures
        out@.map_values(|x: String| x@) == sentences_of(text@),
{
    let v = chars_of(text);
    let ghost s = text@;
    let n = v.len();
    let mut out: Vec<String> = Vec::new();
    let mut start: usize = 0;
    let mut i: usize = 0;
    while i < n
        invariant
            v@ == s,
            n == s.len(),
            start <= i <= n,
            sentences_of(s) == out@.map_values(|x: String| x@) + tidy(pieces_from(s, start as int, i as int)),
        decreases n - i,
    {
        let after_terminal = i > 0 && (v[i - 1] == '.' || v[i - 1] == '!' || v[i - 1] == '?') && char_is_ws(v[i]);
        let double_break = !after_terminal && i + 1 < n && v[i] == '\n' && v[i + 1] == '\n';
        if after_terminal || double_break {
            let mut e = i;
            if after_terminal {
                while e < n && char_is_ws(v[e])
                    invariant
                        v@ == s,
                        n == s.len(),
                        i <= e <= n,
                        forall|j: int| i <= j < e ==> is_ws(#[trigger] s[j]),
                    decreases n - e,
                {
                    e += 1;
                }
                proof {
                    lemma_ws_run_exact(s, i as int, e as int);
                }
            } else {
                while e < n && v[e] == '\n'
                    invariant
                        v@ == s,
                        n == s.len(),
                        i <= e <= n,
                        forall|j: int| i <= j < e ==> #[trigger] s[j] == '\n',
                    decreases n - e,
                {
                    e += 1;
                }
                proof {
                    lemma_nl_run_exact(s, i as int, e as int);
                }
            }
            assert(separator_len(s, i as int) == e - i);
            let piece = string_of_range(&v, start, i);
            proof {
                lemma_tidy_add(seq![s.subrange(start as int, i as int)], pieces_from(s, e as int, e as int));
            }
            push_tidy(&mut out, piece.as_str());
            start = e;
            i = e;
        } else {
            assert(separator_len(s, i as int) == 0);
            i += 1;
        }
    }
    let piece = string_of_range(&v, start, n);
    push_tidy(&mut out, piece.as_str());
    assert(out@.map_values(|x: String| x@) =~= sentences_of(s));
    out
}

/// Breakpoints between sentences: `i + 1` for every adjacent pair `i` whose similarity is
/// below the threshold, in order.
pub fn breakpoints_from(below: &Vec<bool>) -> (bps: Vec<usize>)
    requires
        below@.len() < usize::MAX,
    ensures
        forall|k: int| 0 <= k < bps@.len() ==> 1 <= #[trigger] bps@[k] <= below@.len() && below@[bps@[k] - 1],
        forall|a: int, b: int| 0 <= a < b < bps@.len() ==> #[trigger] bps@[a] < #[trigger] bps@[b],
        forall|i: int| 0 <= i < below@.len() && below@[i] ==> bps@.contains((i + 1) as usize),
{
    let mut bps: Vec<usize> = Vec::new();
    let mut i: usize = 0;
    while i < below.len()
        invariant
            below@.len() < usize::MAX,
            i <= below@.len(),
            forall|k: int| 0 <= k < bps@.len() ==> 1 <= #[trigger] bps@[k] <= i && below@[bps@[k] - 1],
            forall|a: int, b: int| 0 <= a < b < bps@.len() ==> #[trigger] bps@[a] < #[trigger] bps@[b],
            forall|j: int| 0 <= j < i && below@[j] ==> bps@.contains((j + 1) as usize),
        decreases below.len() - i,
    {
        if below[i] {
            let ghost old_bps = bps@;
            bps.push(i + 1);
            proof {
                assert(bps@[bps@.len() - 1] == i + 1);
                assert forall|j: int| 0 <= j < i + 1 && below@[j] implies bps@.contains((j + 1) as usize) by {
                    if j < i {
                        let k = choose|k: int| 0 <= k < old_bps.len() && old_bps[k] == (j + 1) as usize;
                        assert(bps@[k] == old_bps[k]);
                    } else {
                        assert(bps@[bps@.len() - 1] == (j + 1) as usize);
                    }
                }
            }
        }
        i += 1;
    }
    bps
}

/// Merged segments and the segment being built after the first `n` sentences of group `g`.
pub open spec fn merge_prefix(g: Seq<Seq<char>>, max: nat, n: nat) -> (Seq<Seq<char>>, Seq<char>)
    decreases n,
{
    if n == 0 || n > g.len() {
        (Seq::empty(), Seq::empty())
    } else {
        let (m, cur) = merge_prefix(g, max, (n - 1) as nat);
        let s = g[n - 1];
        let cand = if cur.len() == 0 { s } else { cur + " "@ + s };
        if utf8_len(cand) > max && cur.len() > 0 {
            (m.push(cur), s)
        } else {
            (m, cand)
        }
    }
}

/// Segments of one group: sentences joined by spaces while a segment stays within `max` bytes
/// (a sentence that alone exceeds it is a segment of its own).
pub open spec fn merge_group(g: Seq<Seq<char>>, max: nat) -> Seq<Seq<char>> {
    let (m, cur) = merge_prefix(g, max, g.len());
    if cur.len() > 0 {
        m.push(cur)
    } else {
        m
    }
}

/// Start of group `k` of sentences cut at breakpoints `bps`.
pub open spec fn group_start(bps: Seq<usize>, k: int) -> int {
    if k == 0 {
        0
    } else {
        bps[k - 1] as int
    }
}

/// End of group `k` of `n` sentences cut at breakpoints `bps`.
pub open spec fn group_end(bps: Seq<usize>, n: int, k: int) -> int {
    if k == bps.len() {
        n
    } else {
        bps[k] as int
    }
}

/// Segments of the first `k` groups of `s` cut at `bps`.
pub open spec fn merge_groups(s: Seq<Seq<char>>, bps: Seq<usize>, max: nat, k: nat) -> Seq<Seq<char>>
    decreases k,
{
    if k == 0 {
        Seq::empty()
    } else {
        merge_groups(s, bps, max, (k - 1) as nat) + merge_group(
            s.subrange(group_start(bps, k - 1), group_end(bps, s.len() as int, k - 1)),
            max,
        )
    }
}

/// Segments of all groups of `s` cut at `bps`.
pub open spec fn merged_segments(s: Seq<Seq<char>>, bps: Seq<usize>, max: nat) -> Seq<Seq<char>> {
    merge_groups(s, bps, max, (bps.len() + 1) as nat)
}

/// Appends the segments of `sentences[lo..hi]` to `out`.
fn merge_group_into(out: &mut Vec<String>, sentences: &Vec<String>, lo: usize, hi: usize, max_size: usize)
    requires
        lo <= hi <= sentences@.len(),
    ensures
        final(out)@.map_values(|x: String| x@) == old(out)@.map_values(|x: String| x@) + merge_group(
            sentences@.map_values(|x: String| x@).subrange(lo as int, hi as int),
            max_size as nat,
        ),
{
    let ghost g = sentences@.map_values(|x: String| x@).subrange(lo as int, hi as int);
    let ghost base = out@.map_values(|x: String| x@);
    let mut current = String::new();
    let mut j: usize = lo;
    while j < hi
        invariant
            lo <= j <= hi <= sentences@.len(),
            g == sentences@.map_values(|x: String| x@).subrange(lo as int, hi as int),
            out@.map_values(|x: String| x@) == base + merge_prefix(g, max_size as nat, (j - lo) as nat).0,
            current@ == merge_prefix(g, max_size as nat, (j - lo) as nat).1,
        decreases hi - j,
    {
        let sentence = sentences[j].as_str();
        assert(g[(j - lo) as int] == sentence@);
        let candidate = if current.as_str().is_empty() {
            owned(sentence)
        } else {
            let mut c = owned(current.as_str());
            c.append(" ");
            c.append(sentence);
            c
        };
        let ghost before = out@.map_values(|x: String| x@);
        if byte_len(candidate.as_str()) > max_size && !current.as_str().is_empty() {
            out.push(current);
            assert(out@.map_values(|x: String| x@) =~= before.push(merge_prefix(g, max_size as nat, (j - lo) as nat).1));
            current = owned(sentence);
        } else {
            current = candidate;
        }
        j += 1;
    }
    assert(hi - lo == g.len());
    if !current.as_str().is_empty() {
        let ghost before = out@.map_values(|x: String| x@);
        out.push(current);
        assert(out@.map_values(|x: String| x@) =~= before.push(merge_prefix(g, max_size as nat, g.len()).1));
    }
}

/// Groups sentences at the breakpoints, then within each group joins consecutive sentences with
/// a space while a segment stays within `max_size` bytes.
pub fn merge_segments(sentences: &Vec<String>, breakpoints: &Vec<usize>, max_size: usize) -> (out: Vec<String>)
    requires
        forall|k: int| 0 <= k < breakpoints@.len() ==> #[trigger] breakpoints@[k] <= sentences@.len(),
        forall|a: int, b: int| 0 <= a < b < breakpoints@.len() ==> #[trigger] breakpoints@[a] <= #[trigger] breakpoints@[b],
    ensures
        out@.map_values(|x: String| x@) == merged_segments(sentences@.map_values(|x: String| x@), breakpoints@, max_size as nat),
{
    let ghost s = sentences@.map_values(|x: String| x@);
    let mut out: Vec<String> = Vec::new();
    let mut start: usize = 0;
    let mut k: usize = 0;
    assert(out@.map_values(|x: String| x@) =~= Seq::<Seq<char>>::empty());
    while k < breakpoints.len()
        invariant
            k <= breakpoints@.len(),
            s == sentences@.map_values(|x: String| x@),
            forall|q: int| 0 <= q < breakpoints@.len() ==> #[trigger] breakpoints@[q] <= sentences@.len(),
            forall|a: int, b: int| 0 <= a < b < breakpoints@.len() ==> #[trigger] breakpoints@[a] <= #[trigger] breakpoints@[b],
            start == group_start(breakpoints@, k as int),
            out@.map_values(|x: String| x@) == merge_groups(s, breakpoints@, max_size as nat, k as nat),
        decreases breakpoints.len() - k,
    {
        let bp = breakpoints[k];
        proof {
            if k > 0 {
                assert(breakpoints@[k - 1] <= breakpoints@[k as int]);
            }
        }
        merge_group_into(&mut out, sentences, start, bp, max_size);
        assert(s.subrange(start as int, bp as int) =~= sentences@.map_values(|x: String| x@).subrange(start as int, bp as int));
        start = bp;
        k += 1;
    }
    proof {
        if k > 0 {
            assert(start <= sentences@.len());
        }
    }
    merge_group_into(&mut out, sentences, start, sentences.len(), max_size);
    out
}

proof fn lemma_lead_ws_stop(s: Seq<char>)
    ensures
        lead_ws(s) <= s.len(),
        lead_ws(s) < s.len() ==> !is_ws(s[lead_ws(s) as int]),
    decreases s.len(),
{
    if s.len() > 0 && is_ws(s[0]) {
        lemma_lead_ws_stop(s.drop_first());
    }
}

proof fn lemma_trail_ws_stop(s: Seq<char>)
    ensures
        trail_ws(s) <= s.len(),
        trail_ws(s) < s.len() ==> !is_ws(s[s.len() - 1 - trail_ws(s)]),
    decreases s.len(),
{
    if s.len() > 0 && is_ws(s.last()) {
        lemma_trail_ws_stop(s.drop_last());
    }
}

proof fn lemma_lead_trail(s: Seq<char>)
    requires
        lead_ws(s) < s.len(),
    ensures
        lead_ws(s) + trail_ws(s) < s.len(),
{
    lemma_lead_ws_stop(s);
    lemma_trail_ws_stop(s);
    lemma_lead_prefix_ws(s, lead_ws(s) as int);
    if lead_ws(s) + trail_ws(s) >= s.len() {
        lemma_trail_suffix_ws(s, s.len() - 1 - lead_ws(s) as int);
        assert(is_ws(s[lead_ws(s) as int]));
    }
}

proof fn lemma_lead_prefix_ws(s: Seq<char>, k: int)
    requires
        0 <= k <= lead_ws(s),
    ensures
        forall|j: int| 0 <= j < k ==> is_ws(#[trigger] s[j]),
    decreases s.len(),
{
    lemma_lead_ws_stop(s);
    if k > 0 {
        lemma_lead_prefix_ws(s.drop_first(), k - 1);
        assert forall|j: int| 0 <= j < k implies is_ws(#[trigger] s[j]) by {
            if j > 0 {
                assert(s.drop_first()[j - 1] == s[j]);
            }
        }
    }
}

proof fn lemma_trail_suffix_ws(s: Seq<char>, k: int)
    requires
        0 <= k < trail_ws(s),
    ensures
        is_ws(s[s.len() - 1 - k]),
    decreases s.len(),
{
    lemma_trail_ws_stop(s);
    if k > 0 {
        lemma_trail_suffix_ws(s.drop_last(), k - 1);
        assert(s.drop_last()[s.len() - 2 - (k - 1)] == s[s.len() - 1 - k]);
    }
}

proof fn lemma_trim_ends(x: Seq<char>)
    ensures
        trim_ws(x).len() > 0 ==> !is_ws(trim_ws(x)[0]) && !is_ws(trim_ws(x).last()),
{
    if lead_ws(x) < x.len() {
        lemma_lead_trail(x);
        lemma_lead_ws_stop(x);
        lemma_trail_ws_stop(x);
        let t = trim_ws(x);
        assert(t[0] == x[lead_ws(x) as int]);
        assert(t.last() == x[x.len() - 1 - trail_ws(x)]);
    } else {
        lemma_lead_ws_stop(x);
    }
}

/// A segment is within `max` bytes, or is one of the sentences of `g`.
pub open spec fn fits_or_sentence(x: Seq<char>, g: Seq<Seq<char>>, max: nat) -> bool {
    utf8_len(x) <= max || g.contains(x)
}

proof fn lemma_merge_prefix(g: Seq<Seq<char>>, max: nat, n: nat)
    requires
        n <= g.len(),
    ensures
        forall|i: int| 0 <= i < merge_prefix(g, max, n).0.len() ==> #[trigger] merge_prefix(g, max, n).0[i].len() > 0 && fits_or_sentence(merge_prefix(g, max, n).0[i], g, max),
        fits_or_sentence(merge_prefix(g, max, n).1, g, max),
    decreases n,
{
    if n > 0 {
        lemma_merge_prefix(g, max, (n - 1) as nat);
        let (m, cur) = merge_prefix(g, max, (n - 1) as nat);
        let s = g[n - 1];
        assert(g.contains(s));
        assert(utf8_len(Seq::<char>::empty()) == 0) by {
            assert(vstd::utf8::encode_utf8(Seq::<char>::empty()) =~= Seq::<u8>::empty());
        }
    } else {
        assert(utf8_len(Seq::<char>::empty()) == 0) by {
            assert(vstd::utf8::encode_utf8(Seq::<char>::empty()) =~= Seq::<u8>::empty());
        }
    }
}

proof fn lemma_merge_groups(s: Seq<Seq<char>>, bps: Seq<usize>, max: nat, k: nat)
    requires
        k <= bps.len() + 1,
        forall|q: int| 0 <= q < bps.len() ==> #[trigger] bps[q] <= s.len(),
        forall|a: int, b: int| 0 <= a < b < bps.len() ==> #[trigger] bps[a] <= #[trigger] bps[b],
    ensures
        forall|i: int| 0 <= i < merge_groups(s, bps, max, k).len() ==> #[trigger] merge_groups(s, bps, max, k)[i].len() > 0 && fits_or_sentence(merge_groups(s, bps, max, k)[i], s, max),
    decreases k,
{
    if k > 0 {
        lemma_merge_groups(s, bps, max, (k - 1) as nat);
        let lo = group_start(bps, k - 1);
        let hi = group_end(bps, s.len() as int, k - 1);
        assert(0 <= lo <= hi <= s.len()) by {
            if k - 1 > 0 && k - 1 < bps.len() {
                assert(bps[k - 2] <= bps[k - 1]);
            }
        }
        let g = s.subrange(lo, hi);
        lemma_merge_prefix(g, max, g.len());
        let prev = merge_groups(s, bps, max, (k - 1) as nat);
        let mg = merge_group(g, max);
        assert forall|i: int| 0 <= i < mg.len() implies #[trigger] mg[i].len() > 0 && fits_or_sentence(mg[i], s, max) by {
            assert(mg[i].len() > 0 && fits_or_sentence(mg[i], g, max));
            if g.contains(mg[i]) {
                let j = choose|j: int| 0 <= j < g.len() && g[j] == mg[i];
                assert(s[lo + j] == mg[i]);
            }
        }
        assert forall|i: int| 0 <= i < (prev + mg).len() implies #[trigger] (prev + mg)[i].len() > 0 && fits_or_sentence((prev + mg)[i], s, max) by {
            if i >= prev.len() {
                assert((prev + mg)[i] == mg[i - prev.len()]);
            }
        }
    }
}

/// Law: every merged segment is non-empty, and it stays within `max` bytes unless it is a single
/// sentence that alone exceeds them.
pub proof fn law_segments_fit(s: Seq<Seq<char>>, bps: Seq<usize>, max: nat)
    requires
        forall|q: int| 0 <= q < bps.len() ==> #[trigger] bps[q] <= s.len(),
        forall|a: int, b: int| 0 <= a < b < bps.len() ==> #[trigger] bps[a] <= #[trigger] bps[b],
    ensures
        forall|i: int| 0 <= i < merged_segments(s, bps, max).len() ==> #[trigger] merged_segments(s, bps, max)[i].len() > 0 && fits_or_sentence(merged_segments(s, bps, max)[i], s, max),
{
    lemma_merge_groups(s, bps, max, (bps.len() + 1) as nat);
}

/// Law: the breakpoints found between `n` sentences (one flag per adjacent pair) are valid cut
/// points for merging them.
pub proof fn law_breakpoints_fit_merge(bps: Seq<usize>, below: Seq<bool>, n: nat)
    requires
        below.len() + 1 == n,
        forall|k: int| 0 <= k < bps.len() ==> 1 <= #[trigger] bps[k] <= below.len() && below[bps[k] - 1],
        forall|a: int, b: int| 0 <= a < b < bps.len() ==> #[trigger] bps[a] < #[trigger] bps[b],
    ensures
        forall|q: int| 0 <= q < bps.len() ==> #[trigger] bps[q] <= n,
        forall|a: int, b: int| 0 <= a < b < bps.len() ==> #[trigger] bps[a] <= #[trigger] bps[b],
{
}

/// Law: every sentence is non-empty and has no leading or trailing whitespace.
pub proof fn law_sentences_trimmed(text: Seq<char>)
    ensures
        forall|i: int| 0 <= i < sentences_of(text).len() ==> #[trigger] sentences_of(text)[i].len() > 0,
        forall|i: int| 0 <= i < sentences_of(text).len() ==> !is_ws(#[trigger] sentences_of(text)[i][0]) && !is_ws(sentences_of(text)[i].last()),
{
    let p = pieces_from(text, 0, 0);
    let f = |x: Seq<char>| trim_ws(x);
    let pred = |x: Seq<char>| x.len() > 0;
    let mapped = p.map_values(f);
    assert forall|i: int| 0 <= i < sentences_of(text).len() implies #[trigger] sentences_of(text)[i].len() > 0 by {
        mapped.lemma_filter_pred(pred, i);
    }
    assert forall|i: int| 0 <= i < sentences_of(text).len() implies !is_ws(#[trigger] sentences_of(text)[i][0]) && !is_ws(sentences_of(text)[i].last()) by {
        mapped.lemma_filter_pred(pred, i);
        let e = mapped.filter(pred)[i];
        assert(mapped.filter(pred).contains(e));
        mapped.lemma_filter_contains_rev(pred, e);
        let j = choose|j: int| 0 <= j < mapped.len() && mapped[j] == sentences_of(text)[i];
        assert(trim_ws(p[j]) == sentences_of(text)[i]);
        lemma_trim_ends(p[j]);
    }
}

} // verus!

verus! {

proof fn lemma_pieces_skip_plain(s: Seq<char>, start: int, i: int, j: int)
    requires
        0 <= start <= i <= j <= s.len(),
        forall|k: int| i <= k < j ==> separator_len(s, k) == 0,
    ensures
        pieces_from(s, start, i) == pieces_from(s, start, j),
    decreases j - i,
{
    if i < j {
        assert(separator_len(s, i) == 0);
        lemma_pieces_skip_plain(s, start, i + 1, j);
    }
}

proof fn lemma_trim_nonempty(x: Seq<char>, m: int)
    requires
        0 <= m < x.len(),
        !is_ws(x[m]),
    ensures
        trim_ws(x).len() > 0,
{
    lemma_lead_ws_stop(x);
    if lead_ws(x) == x.len() {
        lemma_lead_prefix_ws(x, x.len() as int);
        assert(is_ws(x[m]));
    }
    lemma_lead_trail(x);
}

proof fn lemma_tidy_pair(x: Seq<char>, y: Seq<char>)
    requires
        trim_ws(x).len() > 0,
        trim_ws(y).len() > 0,
    ensures
        tidy(seq![x, y]) == seq![trim_ws(x), trim_ws(y)],
{
    let f = |z: Seq<char>| trim_ws(z);
    let p = |z: Seq<char>| z.len() > 0;
    assert(seq![x, y] =~= seq![x] + seq![y]);
    lemma_tidy_add(seq![x], seq![y]);
    reveal_with_fuel(Seq::filter, 2);
    assert(seq![x].map_values(f) =~= seq![trim_ws(x)]);
    assert(seq![y].map_values(f) =~= seq![trim_ws(y)]);
    assert(seq![trim_ws(x)].drop_last() =~= Seq::<Seq<char>>::empty());
    assert(seq![trim_ws(y)].drop_last() =~= Seq::<Seq<char>>::empty());
    assert(seq![trim_ws(x)] + seq![trim_ws(y)] =~= seq![trim_ws(x), trim_ws(y)]);
}

/// Law: whitespace right after `.`, `!` or `?` ends a sentence. For texts `a` and `b` that hold
/// no `.`, `!`, `?` or line break, where `b` starts with a character other than whitespace,
/// the text `a`, `c`, a space, `b` (with `c` one of `.`, `!`, `?`) has exactly two sentences:
/// `a` with `c` appended, and `b`, each trimmed.
pub proof fn law_terminal_then_space_ends_sentence(a: Seq<char>, c: char, b: Seq<char>)
    requires
        c == '.' || c == '!' || c == '?',
        forall|k: int| 0 <= k < a.len() ==> #[trigger] a[k] != '.' && a[k] != '!' && a[k] != '?' && a[k] != '\n',
        forall|k: int| 0 <= k < b.len() ==> #[trigger] b[k] != '.' && b[k] != '!' && b[k] != '?' && b[k] != '\n',
        b.len() > 0,
        !is_ws(b[0]),
    ensures
        sentences_of(a + seq![c, ' '] + b) == seq![trim_ws(a.push(c)), trim_ws(b)],
{
    let s = a + seq![c, ' '] + b;
    let n = s.len() as int;
    let p: int = a.len() as int + 1;
    let q: int = p + 1;
    assert(s[p - 1] == c);
    assert(s[p] == ' ');
    assert(s[q] == b[0]);
    assert(!is_ws(c));
    assert(is_ws(' '));
    assert forall|k: int| 0 <= k < p implies separator_len(s, k) == 0 by {
        if k < a.len() {
            assert(s[k] == a[k]);
        }
        if k > 0 {
            assert(s[k - 1] == a[k - 1]);
        }
    }
    lemma_ws_run_exact(s, p, q);
    assert(separator_len(s, p) == 1);
    assert forall|k: int| q <= k < n implies separator_len(s, k) == 0 by {
        assert(s[k] == b[k - q]);
        if k > q {
            assert(s[k - 1] == b[k - 1 - q]);
        }
    }
    lemma_pieces_skip_plain(s, 0, 0, p);
    lemma_pieces_skip_plain(s, q, q, n);
    assert(pieces_from(s, q, n) == seq![s.subrange(q, n)]);
    assert(pieces_from(s, 0, p) == seq![s.subrange(0, p)] + pieces_from(s, q, q));
    assert(s.subrange(0, p) =~= a.push(c));
    assert(s.subrange(q, n) =~= b);
    assert(pieces_from(s, 0, 0) =~= seq![a.push(c), b]);
    lemma_trim_nonempty(a.push(c), a.len() as int);
    lemma_trim_nonempty(b, 0);
    lemma_tidy_pair(a.push(c), b);
}

/// Law: a text with no `.`, `!`, `?` or line break that is not blank is a single sentence: the
/// text trimmed.
pub proof fn law_plain_text_is_one_sentence(a: Seq<char>, m: int)
    requires
        forall|k: int| 0 <= k < a.len() ==> #[trigger] a[k] != '.' && a[k] != '!' && a[k] != '?' && a[k] != '\n',
        0 <= m < a.len(),
        !is_ws(a[m]),
    ensures
        sentences_of(a) == seq![trim_ws(a)],
{
    let n = a.len() as int;
    assert forall|k: int| 0 <= k < n implies separator_len(a, k) == 0 by {
        if k > 0 {
            assert(a[k - 1] != '.' && a[k - 1] != '!' && a[k - 1] != '?');
        }
    }
    lemma_pieces_skip_plain(a, 0, 0, n);
    assert(a.subrange(0, n) =~= a);
    assert(pieces_from(a, 0, 0) =~= seq![a]);
    lemma_trim_nonempty(a, m);
    let f = |z: Seq<char>| trim_ws(z);
    reveal_with_fuel(Seq::filter, 2);
    assert(seq![a].map_values(f) =~= seq![trim_ws(a)]);
    assert(seq![trim_ws(a)].drop_last() =~= Seq::<Seq<char>>::empty());
}

/// Law: a blank line (two or more line breaks) ends a sentence. For texts `a` and `b` that hold
/// no `.`, `!`, `?` or line break, where `a` ends and `b` starts with a character other than
/// whitespace, `a`, two line breaks, `b` has exactly the sentences `a` and `b`.
pub proof fn law_blank_line_ends_sentence(a: Seq<char>, b: Seq<char>)
    requires
        forall|k: int| 0 <= k < a.len() ==> #[trigger] a[k] != '.' && a[k] != '!' && a[k] != '?' && a[k] != '\n',
        forall|k: int| 0 <= k < b.len() ==> #[trigger] b[k] != '.' && b[k] != '!' && b[k] != '?' && b[k] != '\n',
        a.len() > 0,
        !is_ws(a.last()),
        b.len() > 0,
        !is_ws(b[0]),
    ensures
        sentences_of(a + seq!['\n', '\n'] + b) == seq![trim_ws(a), trim_ws(b)],
{
    let s = a + seq!['\n', '\n'] + b;
    let n = s.len() as int;
    let p: int = a.len() as int;
    let q: int = p + 2;
    assert(s[p] == '\n');
    assert(s[p + 1] == '\n');
    assert(s[p - 1] == a.last());
    assert(s[q] == b[0]);
    assert forall|k: int| 0 <= k < p implies separator_len(s, k) == 0 by {
        assert(s[k] == a[k]);
        if k > 0 {
            assert(s[k - 1] == a[k - 1]);
        }
    }
    lemma_nl_run_exact(s, p, q);
    assert(separator_len(s, p) == 2);
    assert forall|k: int| q <= k < n implies separator_len(s, k) == 0 by {
        assert(s[k] == b[k - q]);
        if k > q {
            assert(s[k - 1] == b[k - 1 - q]);
        }
    }
    lemma_pieces_skip_plain(s, 0, 0, p);
    lemma_pieces_skip_plain(s, q, q, n);
    assert(pieces_from(s, q, n) == seq![s.subrange(q, n)]);
    assert(pieces_from(s, 0, p) == seq![s.subrange(0, p)] + pieces_from(s, q, q));
    assert(s.subrange(0, p) =~= a);
    assert(s.subrange(q, n) =~= b);
    assert(pieces_from(s, 0, 0) =~= seq![a, b]);
    lemma_trim_nonempty(a, a.len() - 1);
    lemma_trim_nonempty(b, 0);
    lemma_tidy_pair(a, b);
}

} // verus!
