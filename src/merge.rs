use vstd::prelude::*;
use vstd::string::*;
use crate::token::{MergedToken, Token, TokenModel, merged_models, token_models};
use crate::vocabulary::{Vocabulary, is_window_bound};

verus! {

/// The texts of `ts[lo..hi]`, concatenated in order with no separator.
pub open spec fn joined(ts: Seq<TokenModel>, lo: int, hi: int) -> Seq<char>
    decreases hi - lo,
{
    if hi <= lo {
        Seq::empty()
    } else {
        joined(ts, lo, hi - 1) + ts[hi - 1].text
    }
}

/// The widest window of at most `w` tokens starting at `i` whose joined text
/// is an entry of `v`, or 0 when there is none.
pub open spec fn window_at(ts: Seq<TokenModel>, v: Set<Seq<char>>, i: int, w: int) -> int
    decreases w,
{
    if w <= 0 {
        0
    } else if i + w <= ts.len() && v.contains(joined(ts, i, i + w)) {
        w
    } else {
        window_at(ts, v, i, w - 1)
    }
}

/// The merged token that covers the tokens `ts[i..i + w]`.
pub open spec fn run(ts: Seq<TokenModel>, i: int, w: int) -> TokenModel {
    TokenModel {
        text: joined(ts, i, i + w),
        byte_start: ts[i].byte_start,
        byte_end: ts[i + w - 1].byte_end,
        position: ts[i].position,
        position_length: ts[i + w - 1].position_length,
    }
}

/// The merged stream that the greedy longest-match scan produces from
/// position `i` on, with vocabulary `v` and window bound `b`.
pub open spec fn merged_from(ts: Seq<TokenModel>, v: Set<Seq<char>>, b: nat, i: int) -> Seq<
    TokenModel,
>
    decreases ts.len() - i,
    via merged_from_decreases
{
    if i < 0 || i >= ts.len() {
        Seq::empty()
    } else {
        let w = window_at(ts, v, i, b as int);
        if w > 0 {
            seq![run(ts, i, w)] + merged_from(ts, v, b, i + w)
        } else {
            seq![ts[i]] + merged_from(ts, v, b, i + 1)
        }
    }
}

/// The entries that the greedy scan consumes from position `i` on.
pub open spec fn used_from(ts: Seq<TokenModel>, v: Set<Seq<char>>, b: nat, i: int) -> Set<
    Seq<char>,
>
    decreases ts.len() - i,
    via used_from_decreases
{
    if i < 0 || i >= ts.len() {
        Set::empty()
    } else {
        let w = window_at(ts, v, i, b as int);
        if w > 0 {
            used_from(ts, v, b, i + w).insert(joined(ts, i, i + w))
        } else {
            used_from(ts, v, b, i + 1)
        }
    }
}

#[via_fn]
proof fn merged_from_decreases(ts: Seq<TokenModel>, v: Set<Seq<char>>, b: nat, i: int) {
    lemma_window_range(ts, v, i, b as int);
}

#[via_fn]
proof fn used_from_decreases(ts: Seq<TokenModel>, v: Set<Seq<char>>, b: nat, i: int) {
    lemma_window_range(ts, v, i, b as int);
}

/// Windows wider than the tokens left at `i` never match.
pub proof fn lemma_window_capped(ts: Seq<TokenModel>, v: Set<Seq<char>>, i: int, w: int)
    requires
        0 <= i <= ts.len(),
        w >= ts.len() - i,
    ensures
        window_at(ts, v, i, w) == window_at(ts, v, i, ts.len() - i),
    decreases w,
{
    if w > ts.len() - i {
        lemma_window_capped(ts, v, i, w - 1);
    }
}

/// The window found lies within the tokens and, when not 0, matches.
pub proof fn lemma_window_range(ts: Seq<TokenModel>, v: Set<Seq<char>>, i: int, w: int)
    ensures
        0 <= window_at(ts, v, i, w),
        w >= 0 ==> window_at(ts, v, i, w) <= w,
        window_at(ts, v, i, w) > 0 ==> i + window_at(ts, v, i, w) <= ts.len() && v.contains(
            joined(ts, i, i + window_at(ts, v, i, w)),
        ),
    decreases w,
{
    if w > 0 {
        lemma_window_range(ts, v, i, w - 1);
    }
}

/// The joined text of `tokens[lo..hi]`.
fn join_texts(tokens: &[Token], lo: usize, hi: usize) -> (r: String)
    requires
        lo <= hi <= tokens@.len(),
    ensures
        r@ == joined(token_models(tokens@), lo as int, hi as int),
{
    let ghost ts = token_models(tokens@);
    let mut r = String::new();
    let mut k: usize = lo;
    while k < hi
        invariant
            lo <= k <= hi,
            hi <= tokens@.len(),
            ts == token_models(tokens@),
            r@ == joined(ts, lo as int, k as int),
        decreases hi - k,
    {
        r.append(tokens[k].text.as_str());
        assert(ts[k as int] == tokens@[k as int]@);
        k = k + 1;
    }
    r
}

/// Greedy longest-match merge of `tokens` against `user_dictionary`.
///
/// From the left, at each token the windows of `max_length` tokens down to
/// one (never past the end) are tried in turn; the first whose joined text
/// is an entry becomes one merged token, and the scan goes on after it. A
/// token where no window matches passes through unchanged. Returns the
/// merged stream and the set of entries that were used.
pub fn merge_user_dictionary_words(
    tokens: &[Token],
    user_dictionary: &Vocabulary,
    max_length: usize,
) -> (r: (Vec<MergedToken>, Vocabulary))
    ensures
        merged_models(r.0@) == merged_from(
            token_models(tokens@),
            user_dictionary@,
            max_length as nat,
            0,
        ),
        r.1.wf(),
        r.1@ == used_from(token_models(tokens@), user_dictionary@, max_length as nat, 0),
{
    let ghost ts = token_models(tokens@);
    let ghost v = user_dictionary@;
    let ghost b = max_length as nat;
    let len = tokens.len();
    let mut out: Vec<MergedToken> = Vec::with_capacity(len);
    let mut used = Vocabulary::new();
    let mut i: usize = 0;
    while i < len
        invariant
            len == tokens@.len(),
            ts == token_models(tokens@),
            v == user_dictionary@,
            b == max_length as nat,
            i <= len,
            used.wf(),
            merged_from(ts, v, b, 0) == merged_models(out@) + merged_from(ts, v, b, i as int),
            used_from(ts, v, b, 0) == used@.union(used_from(ts, v, b, i as int)),
        decreases len - i,
    {
        let top: usize = if max_length < len - i {
            max_length
        } else {
            len - i
        };
        proof {
            if max_length >= len - i {
                lemma_window_capped(ts, v, i as int, max_length as int);
            }
        }
        let mut w: usize = top;
        let mut found: usize = 0;
        let mut candidate = String::new();
        while w > 0
            invariant
                len == tokens@.len(),
                ts == token_models(tokens@),
                v == user_dictionary@,
                i < len,
                top <= len - i,
                w <= top,
                found <= top,
                window_at(ts, v, i as int, top as int) == window_at(ts, v, i as int, b as int),
                found == 0 ==> window_at(ts, v, i as int, w as int) == window_at(
                    ts,
                    v,
                    i as int,
                    top as int,
                ),
                found > 0 ==> w == 0 && found == window_at(ts, v, i as int, top as int)
                    && candidate@ == joined(ts, i as int, i + found),
            decreases w,
        {
            let c = join_texts(tokens, i, i + w);
            if user_dictionary.contains(&c) {
                found = w;
                candidate = c;
                w = 0;
            } else {
                w = w - 1;
            }
        }
        let ghost prev = merged_models(out@);
        let ghost prev_used = used@;
        let ghost rest_before = merged_from(ts, v, b, i as int);
        if found > 0 {
            let merged = MergedToken {
                text: candidate.clone(),
                byte_start: tokens[i].byte_start,
                byte_end: tokens[i + found - 1].byte_end,
                position: tokens[i].position,
                position_length: tokens[i + found - 1].position_length,
            };
            out.push(merged);
            used.insert(candidate);
            proof {
                assert(ts[i as int] == tokens@[i as int]@);
                assert(ts[i + found - 1] == tokens@[i + found - 1]@);
                assert(merged_models(out@) =~= prev.push(run(ts, i as int, found as int)));
                assert(prev + rest_before =~= merged_models(out@) + merged_from(
                    ts,
                    v,
                    b,
                    i + found,
                ));
                assert(prev_used.union(used_from(ts, v, b, i as int)) =~= used@.union(
                    used_from(ts, v, b, i + found),
                ));
            }
            i = i + found;
        } else {
            out.push(MergedToken::from_token(&tokens[i]));
            proof {
                assert(ts[i as int] == tokens@[i as int]@);
                assert(merged_models(out@) =~= prev.push(ts[i as int]));
                assert(prev + rest_before =~= merged_models(out@) + merged_from(ts, v, b, i + 1));
            }
            i = i + 1;
        }
    }
    (out, used)
}

/// Every token passed through unchanged, as merged tokens.
pub fn pass_through(tokens: &[Token]) -> (r: Vec<MergedToken>)
    ensures
        merged_models(r@) == token_models(tokens@),
{
    let mut out: Vec<MergedToken> = Vec::with_capacity(tokens.len());
    let mut k: usize = 0;
    while k < tokens.len()
        invariant
            k <= tokens@.len(),
            merged_models(out@) == token_models(tokens@).subrange(0, k as int),
        decreases tokens@.len() - k,
    {
        let ghost prev = merged_models(out@);
        out.push(MergedToken::from_token(&tokens[k]));
        assert(merged_models(out@) =~= prev.push(tokens@[k as int]@));
        assert(merged_models(out@) =~= token_models(tokens@).subrange(0, k + 1));
        k = k + 1;
    }
    assert(token_models(tokens@).subrange(0, k as int) =~= token_models(tokens@));
    out
}

/// The corrected token stream: without a vocabulary every token passes
/// through; with one, the tokens are merged against it with the window
/// bound that it gives (its longest entry's character count, 1 when empty).
pub fn correct_tokens(tokens: &[Token], user_dictionary: Option<&Vocabulary>) -> (r: Vec<
    MergedToken,
>)
    ensures
        user_dictionary is None ==> merged_models(r@) == token_models(tokens@),
        user_dictionary matches Some(v) ==> exists|b: nat|
            is_window_bound(v@, b) && merged_models(r@) == merged_from(
                token_models(tokens@),
                v@,
                b,
                0,
            ),
{
    match user_dictionary {
        None => pass_through(tokens),
        Some(v) => {
            let b = v.max_entry_chars();
            let (merged, _used) = merge_user_dictionary_words(tokens, v, b);
            assert(is_window_bound(v@, b as nat));
            merged
        },
    }
}

} // verus!
