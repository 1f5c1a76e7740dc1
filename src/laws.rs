use vstd::prelude::*;
use crate::token::TokenModel;
use crate::merge::{joined, merged_from, run, used_from, window_at, lemma_window_range};

verus! {

/// The texts of a token stream, concatenated in order.
pub open spec fn stream_text(ms: Seq<TokenModel>) -> Seq<char>
    decreases ms.len(),
{
    if ms.len() == 0 {
        Seq::empty()
    } else {
        ms[0].text + stream_text(ms.drop_first())
    }
}

/// Joining `ts[lo..hi]` is joining `ts[lo..mid]`, then `ts[mid..hi]`.
pub proof fn lemma_joined_split(ts: Seq<TokenModel>, lo: int, mid: int, hi: int)
    requires
        lo <= mid <= hi,
    ensures
        joined(ts, lo, hi) == joined(ts, lo, mid) + joined(ts, mid, hi),
    decreases hi - mid,
{
    if hi == mid {
        assert(joined(ts, lo, mid) + Seq::<char>::empty() =~= joined(ts, lo, mid));
    } else {
        lemma_joined_split(ts, lo, mid, hi - 1);
        assert(joined(ts, lo, hi) =~= joined(ts, lo, mid) + joined(ts, mid, hi));
    }
}

/// A window of one token is that token.
pub proof fn lemma_run_single(ts: Seq<TokenModel>, i: int)
    requires
        0 <= i < ts.len(),
    ensures
        run(ts, i, 1) == ts[i],
{
    assert(joined(ts, i, i) == Seq::<char>::empty());
    assert(joined(ts, i, i + 1) == joined(ts, i, i) + ts[i].text);
    assert(joined(ts, i, i + 1) =~= ts[i].text);
}

proof fn lemma_stream_text_cons(x: TokenModel, rest: Seq<TokenModel>)
    ensures
        stream_text(seq![x] + rest) == x.text + stream_text(rest),
{
    assert((seq![x] + rest).drop_first() =~= rest);
}

proof fn lemma_content_from(ts: Seq<TokenModel>, v: Set<Seq<char>>, b: nat, i: int)
    requires
        0 <= i <= ts.len(),
    ensures
        stream_text(merged_from(ts, v, b, i)) == joined(ts, i, ts.len() as int),
    decreases ts.len() - i,
{
    if i < ts.len() {
        let w = window_at(ts, v, i, b as int);
        lemma_window_range(ts, v, i, b as int);
        let step = if w > 0 { w } else { 1 };
        lemma_content_from(ts, v, b, i + step);
        lemma_joined_split(ts, i, i + step, ts.len() as int);
        if w > 0 {
            lemma_stream_text_cons(run(ts, i, w), merged_from(ts, v, b, i + w));
        } else {
            lemma_run_single(ts, i);
            lemma_stream_text_cons(ts[i], merged_from(ts, v, b, i + 1));
        }
    } else {
        assert(joined(ts, i, ts.len() as int) =~= Seq::<char>::empty());
    }
}

/// Merging never changes the text: the merged stream spells exactly what
/// the token stream spells.
pub proof fn lemma_content_preserved(ts: Seq<TokenModel>, v: Set<Seq<char>>, b: nat)
    ensures
        stream_text(merged_from(ts, v, b, 0)) == joined(ts, 0, ts.len() as int),
{
    lemma_content_from(ts, v, b, 0);
}

/// No run of whole tokens of `ts` spells an entry of `v`.
pub open spec fn disjoint_from(ts: Seq<TokenModel>, v: Set<Seq<char>>) -> bool {
    forall|i: int, k: int|
        0 <= i && 1 <= k && i + k <= ts.len() ==> !v.contains(#[trigger] joined(ts, i, i + k))
}

proof fn lemma_no_window(ts: Seq<TokenModel>, v: Set<Seq<char>>, i: int, w: int)
    requires
        disjoint_from(ts, v),
        0 <= i,
    ensures
        window_at(ts, v, i, w) == 0,
    decreases w,
{
    if w > 0 {
        lemma_no_window(ts, v, i, w - 1);
    }
}

proof fn lemma_identity_from(ts: Seq<TokenModel>, v: Set<Seq<char>>, b: nat, i: int)
    requires
        disjoint_from(ts, v),
        0 <= i <= ts.len(),
    ensures
        merged_from(ts, v, b, i) == ts.subrange(i, ts.len() as int),
        used_from(ts, v, b, i) == Set::<Seq<char>>::empty(),
    decreases ts.len() - i,
{
    if i < ts.len() {
        lemma_no_window(ts, v, i, b as int);
        lemma_identity_from(ts, v, b, i + 1);
        assert(seq![ts[i]] + ts.subrange(i + 1, ts.len() as int) =~= ts.subrange(
            i,
            ts.len() as int,
        ));
    } else {
        assert(ts.subrange(i, ts.len() as int) =~= Seq::<TokenModel>::empty());
    }
}

/// When no run of whole tokens spells an entry, every token passes through
/// unchanged and no entry is used.
pub proof fn lemma_disjoint_identity(ts: Seq<TokenModel>, v: Set<Seq<char>>, b: nat)
    requires
        disjoint_from(ts, v),
    ensures
        merged_from(ts, v, b, 0) == ts,
        used_from(ts, v, b, 0) == Set::<Seq<char>>::empty(),
{
    lemma_identity_from(ts, v, b, 0);
    assert(ts.subrange(0, ts.len() as int) =~= ts);
}

proof fn lemma_window_at_least(ts: Seq<TokenModel>, v: Set<Seq<char>>, i: int, top: int, w: int)
    requires
        1 <= w <= top,
        i + w <= ts.len(),
        v.contains(joined(ts, i, i + w)),
    ensures
        window_at(ts, v, i, top) >= w,
    decreases top,
{
    if top > w && !(i + top <= ts.len() && v.contains(joined(ts, i, i + top))) {
        lemma_window_at_least(ts, v, i, top - 1, w);
    }
}

/// Where the scan stands at token `i` and a window of `w` tokens there
/// spells an entry, what it emits is a run of at least `w` tokens: the
/// widest matching window within the bound wins.
pub proof fn lemma_longest_match(ts: Seq<TokenModel>, v: Set<Seq<char>>, b: nat, i: int, w: int)
    requires
        0 <= i,
        1 <= w <= b,
        i + w <= ts.len(),
        v.contains(joined(ts, i, i + w)),
    ensures
        window_at(ts, v, i, b as int) >= w,
        merged_from(ts, v, b, i).len() > 0,
        merged_from(ts, v, b, i)[0] == run(ts, i, window_at(ts, v, i, b as int)),
{
    lemma_window_at_least(ts, v, i, b as int, w);
}

/// `m` is the merged token of a run of whole tokens of `ts`.
pub open spec fn is_run_of(ts: Seq<TokenModel>, m: TokenModel) -> bool {
    exists|s: int, k: int| 0 <= s && 1 <= k && s + k <= ts.len() && m == #[trigger] run(ts, s, k)
}

proof fn lemma_runs_from(ts: Seq<TokenModel>, v: Set<Seq<char>>, b: nat, i: int)
    requires
        0 <= i <= ts.len(),
    ensures
        forall|j: int|
            0 <= j < merged_from(ts, v, b, i).len() ==> is_run_of(
                ts,
                #[trigger] merged_from(ts, v, b, i)[j],
            ),
        forall|e: Seq<char>|
            #[trigger] used_from(ts, v, b, i).contains(e) ==> v.contains(e) && exists|j: int|
                0 <= j < merged_from(ts, v, b, i).len() && #[trigger] merged_from(
                    ts,
                    v,
                    b,
                    i,
                )[j].text == e,
    decreases ts.len() - i,
{
    if i < ts.len() {
        let w = window_at(ts, v, i, b as int);
        lemma_window_range(ts, v, i, b as int);
        let step = if w > 0 { w } else { 1 };
        lemma_runs_from(ts, v, b, i + step);
        let out = merged_from(ts, v, b, i);
        let rest = merged_from(ts, v, b, i + step);
        let head = if w > 0 { run(ts, i, w) } else { ts[i] };
        assert(out == seq![head] + rest);
        if w == 0 {
            lemma_run_single(ts, i);
        }
        assert(head == run(ts, i, step));
        assert forall|j: int| 0 <= j < out.len() implies is_run_of(ts, #[trigger] out[j]) by {
            if j > 0 {
                assert(out[j] == rest[j - 1]);
            }
        }
        assert forall|e: Seq<char>| #[trigger] used_from(ts, v, b, i).contains(e) implies v.contains(
            e,
        ) && exists|j: int| 0 <= j < out.len() && #[trigger] out[j].text == e by {
            if w > 0 && e == joined(ts, i, i + w) {
                assert(out[0].text == e);
            } else {
                assert(used_from(ts, v, b, i + step).contains(e));
                let j = choose|j: int| 0 <= j < rest.len() && #[trigger] rest[j].text == e;
                assert(out[j + 1] == rest[j]);
            }
        }
    }
}

/// Each token of the merged stream covers a run `ts[s..s + k]` of whole
/// tokens: its text is their joined text, its byte range runs from the
/// first one's start to the last one's end, and its position is the first
/// one's with the last one's position length.
pub proof fn lemma_offsets(ts: Seq<TokenModel>, v: Set<Seq<char>>, b: nat, j: int)
    requires
        0 <= j < merged_from(ts, v, b, 0).len(),
    ensures
        exists|s: int, k: int|
            0 <= s && 1 <= k && s + k <= ts.len() && #[trigger] run(ts, s, k) == merged_from(
                ts,
                v,
                b,
                0,
            )[j] && merged_from(ts, v, b, 0)[j].byte_start == ts[s].byte_start && merged_from(
                ts,
                v,
                b,
                0,
            )[j].byte_end == ts[s + k - 1].byte_end && merged_from(ts, v, b, 0)[j].text
                == joined(ts, s, s + k),
{
    lemma_runs_from(ts, v, b, 0);
    assert(is_run_of(ts, merged_from(ts, v, b, 0)[j]));
}

/// The entries used are entries of the vocabulary, each the text of some
/// token of the merged stream.
pub proof fn lemma_used_entries(ts: Seq<TokenModel>, v: Set<Seq<char>>, b: nat, e: Seq<char>)
    requires
        used_from(ts, v, b, 0).contains(e),
    ensures
        v.contains(e),
        exists|j: int|
            0 <= j < merged_from(ts, v, b, 0).len() && #[trigger] merged_from(ts, v, b, 0)[j].text
                == e,
{
    lemma_runs_from(ts, v, b, 0);
}

/// An entry that no run of whole tokens spells (one that lies strictly
/// inside a single token's text, say) is never used, and no token of the
/// merged stream has it as its text.
pub proof fn lemma_boundary_only(ts: Seq<TokenModel>, v: Set<Seq<char>>, b: nat, e: Seq<char>)
    requires
        forall|s: int, k: int|
            0 <= s && 1 <= k && s + k <= ts.len() ==> #[trigger] joined(ts, s, s + k) != e,
    ensures
        !used_from(ts, v, b, 0).contains(e),
        forall|j: int|
            0 <= j < merged_from(ts, v, b, 0).len() ==> #[trigger] merged_from(ts, v, b, 0)[j].text
                != e,
{
    lemma_runs_from(ts, v, b, 0);
    assert forall|j: int| 0 <= j < merged_from(ts, v, b, 0).len() implies #[trigger] merged_from(
        ts,
        v,
        b,
        0,
    )[j].text != e by {
        assert(is_run_of(ts, merged_from(ts, v, b, 0)[j]));
        let (s, k) = choose|s: int, k: int|
            0 <= s && 1 <= k && s + k <= ts.len() && merged_from(ts, v, b, 0)[j] == #[trigger] run(
                ts,
                s,
                k,
            );
        assert(joined(ts, s, s + k) != e);
    }
}

/// How many tokens the scan consumes when its cursor stands at `i`.
pub open spec fn step(ts: Seq<TokenModel>, v: Set<Seq<char>>, b: nat, i: int) -> int {
    let w = window_at(ts, v, i, b as int);
    if w > 0 {
        w
    } else {
        1
    }
}

/// Where the scan's cursor stands when it emits its `j`-th token, having
/// started at `i`.
pub open spec fn cursor(ts: Seq<TokenModel>, v: Set<Seq<char>>, b: nat, i: int, j: nat) -> int
    decreases j,
{
    if j == 0 {
        i
    } else {
        let c = cursor(ts, v, b, i, (j - 1) as nat);
        c + step(ts, v, b, c)
    }
}

/// `m` is the run of `ts` that the scan takes with its cursor at `s`, and
/// no wider window within the bound starting at `s` spells an entry.
pub open spec fn is_longest_run_at(
    ts: Seq<TokenModel>,
    v: Set<Seq<char>>,
    b: nat,
    s: int,
    m: TokenModel,
) -> bool {
    let k = step(ts, v, b, s);
    &&& 0 <= s
    &&& 1 <= k
    &&& s + k <= ts.len()
    &&& m == run(ts, s, k)
    &&& forall|w: int|
        k < w <= b && s + w <= ts.len() ==> !v.contains(#[trigger] joined(ts, s, s + w))
}

proof fn lemma_window_widest(ts: Seq<TokenModel>, v: Set<Seq<char>>, i: int, top: int, w: int)
    requires
        window_at(ts, v, i, top) < w <= top,
        i + w <= ts.len(),
    ensures
        !v.contains(joined(ts, i, i + w)),
    decreases top,
{
    if top > w {
        if !(i + top <= ts.len() && v.contains(joined(ts, i, i + top))) {
            lemma_window_widest(ts, v, i, top - 1, w);
        }
    }
}

proof fn lemma_cursor_shift(ts: Seq<TokenModel>, v: Set<Seq<char>>, b: nat, i: int, j: nat)
    ensures
        cursor(ts, v, b, i, j + 1) == cursor(ts, v, b, i + step(ts, v, b, i), j),
    decreases j,
{
    let next = i + step(ts, v, b, i);
    assert(cursor(ts, v, b, i, j + 1) == cursor(ts, v, b, i, j) + step(
        ts,
        v,
        b,
        cursor(ts, v, b, i, j),
    ));
    if j > 0 {
        lemma_cursor_shift(ts, v, b, i, (j - 1) as nat);
        assert(cursor(ts, v, b, next, j) == cursor(ts, v, b, next, (j - 1) as nat) + step(
            ts,
            v,
            b,
            cursor(ts, v, b, next, (j - 1) as nat),
        ));
    } else {
        assert(cursor(ts, v, b, i, 0) == i);
        assert(cursor(ts, v, b, next, 0) == next);
    }
}

proof fn lemma_spans_from(ts: Seq<TokenModel>, v: Set<Seq<char>>, b: nat, i: int)
    requires
        0 <= i <= ts.len(),
    ensures
        forall|j: int|
            0 <= j < merged_from(ts, v, b, i).len() ==> is_longest_run_at(
                ts,
                v,
                b,
                cursor(ts, v, b, i, j as nat),
                #[trigger] merged_from(ts, v, b, i)[j],
            ),
        cursor(ts, v, b, i, merged_from(ts, v, b, i).len()) == ts.len(),
    decreases ts.len() - i,
{
    if i < ts.len() {
        let w = window_at(ts, v, i, b as int);
        lemma_window_range(ts, v, i, b as int);
        let k = step(ts, v, b, i);
        let next = i + k;
        lemma_spans_from(ts, v, b, next);
        let out = merged_from(ts, v, b, i);
        let rest = merged_from(ts, v, b, next);
        if w == 0 {
            lemma_run_single(ts, i);
        }
        assert(out == seq![run(ts, i, k)] + rest);
        assert forall|x: int| k < x <= b && i + x <= ts.len() implies !v.contains(
            #[trigger] joined(ts, i, i + x),
        ) by {
            lemma_window_widest(ts, v, i, b as int, x);
        }
        assert(is_longest_run_at(ts, v, b, i, out[0]));
        assert forall|j: int| 0 <= j < out.len() implies is_longest_run_at(
            ts,
            v,
            b,
            cursor(ts, v, b, i, j as nat),
            #[trigger] out[j],
        ) by {
            if j > 0 {
                assert(out[j] == rest[j - 1]);
                lemma_cursor_shift(ts, v, b, i, (j - 1) as nat);
            }
        }
        lemma_cursor_shift(ts, v, b, i, rest.len());
    }
}

/// The merged stream is the greedy scan's: its tokens cover consecutive
/// runs of `ts`, the first starting at token 0 and the last ending at the
/// last token, and each run is the widest window within the bound, at the
/// cursor where it starts, that spells an entry. So where a shorter and a
/// longer window both match at a cursor position, the longer one is taken.
pub proof fn lemma_greedy_spans(ts: Seq<TokenModel>, v: Set<Seq<char>>, b: nat)
    ensures
        cursor(ts, v, b, 0, 0) == 0,
        forall|j: nat|
            #![trigger cursor(ts, v, b, 0, j + 1)]
            cursor(ts, v, b, 0, j + 1) == cursor(ts, v, b, 0, j) + step(
                ts,
                v,
                b,
                cursor(ts, v, b, 0, j),
            ),
        forall|j: int|
            0 <= j < merged_from(ts, v, b, 0).len() ==> is_longest_run_at(
                ts,
                v,
                b,
                cursor(ts, v, b, 0, j as nat),
                #[trigger] merged_from(ts, v, b, 0)[j],
            ),
        cursor(ts, v, b, 0, merged_from(ts, v, b, 0).len()) == ts.len(),
{
    lemma_spans_from(ts, v, b, 0);
}

} // verus!
