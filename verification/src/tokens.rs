//! The token index: filenames are split into normalized tokens, and an
//! inverted index from token to filenames makes candidate lookup for a
//! search query sub-linear.
//!
//! A token is a maximal run of ASCII letters and digits that is additionally
//! split at a lowercase-to-uppercase transition and at a letter-to-digit
//! transition, then lowercased, so that camelCase, PascalCase and snake_case
//! names match by their parts.  Every other character only separates tokens.

use vstd::prelude::*;

use crate::alist::{al_contains, al_key_idx, al_lookup, AssocList};
use crate::state::{SystemCacheView, TokenIndex, TokenIndexView, VolumeCache, VolumeCacheView, AppState};
use crate::strutil::{lower_char, lower_seq};

verus! {

pub open spec fn is_upper(c: char) -> bool {
    'A' <= c && c <= 'Z'
}

pub open spec fn is_lower(c: char) -> bool {
    'a' <= c && c <= 'z'
}

pub open spec fn is_digit(c: char) -> bool {
    '0' <= c && c <= '9'
}

pub open spec fn is_letter(c: char) -> bool {
    is_upper(c) || is_lower(c)
}

/// A character that can stand inside a token.
pub open spec fn is_word_char(c: char) -> bool {
    is_letter(c) || is_digit(c)
}

/// A token boundary between two adjacent token characters: case transition
/// or letter-to-digit transition.
pub open spec fn token_break(prev: char, cur: char) -> bool {
    (is_lower(prev) && is_upper(cur)) || (is_letter(prev) && is_digit(cur))
}

/// Number of characters after `s[0]` that continue the token starting
/// there.
pub open spec fn run_ext(s: Seq<char>) -> nat
    decreases s.len(),
{
    if s.len() <= 1 {
        0
    } else if is_word_char(s[1]) && !token_break(s[0], s[1]) {
        1 + run_ext(s.drop_first())
    } else {
        0
    }
}

pub proof fn lemma_run_ext_bound(s: Seq<char>)
    requires
        s.len() >= 1,
    ensures
        run_ext(s) <= s.len() - 1,
    decreases s.len(),
{
    if s.len() > 1 && is_word_char(s[1]) && !token_break(s[0], s[1]) {
        lemma_run_ext_bound(s.drop_first());
    }
}

/// The tokens of a character sequence, in order.
pub open spec fn spec_tokenize(s: Seq<char>) -> Seq<Seq<char>>
    decreases s.len(),
    via spec_tokenize_decreases
{
    if s.len() == 0 {
        Seq::empty()
    } else if !is_word_char(s[0]) {
        spec_tokenize(s.drop_first())
    } else {
        let k = 1 + run_ext(s) as int;
        seq![lower_seq(s.take(k))] + spec_tokenize(s.skip(k))
    }
}

#[via_fn]
proof fn spec_tokenize_decreases(s: Seq<char>) {
    if s.len() > 0 && is_word_char(s[0]) {
        lemma_run_ext_bound(s);
    }
}

/// A run of `k` token characters without inner break, ended by the string,
/// a non-token character, or a break, is exactly the first token's extent.
proof fn lemma_run_ext_exact(t: Seq<char>, k: int)
    requires
        1 <= k <= t.len(),
        is_word_char(t[0]),
        forall|m: int| 1 <= m < k ==> is_word_char(#[trigger] t[m]) && !token_break(t[m - 1], t[m]),
        k == t.len() || !(is_word_char(t[k]) && !token_break(t[k - 1], t[k])),
    ensures
        1 + run_ext(t) == k,
    decreases k,
{
    if k == 1 {
    } else {
        assert(is_word_char(t[1]) && !token_break(t[0], t[1]));
        let t2 = t.drop_first();
        assert(forall|m: int|
            1 <= m < k - 1 ==> is_word_char(#[trigger] t2[m]) && !token_break(t2[m - 1], t2[m]));
        lemma_run_ext_exact(t2, k - 1);
    }
}

fn is_word_char_exec(c: char) -> (r: bool)
    ensures
        r == is_word_char(c),
{
    ('A' <= c && c <= 'Z') || ('a' <= c && c <= 'z') || ('0' <= c && c <= '9')
}

fn token_break_exec(prev: char, cur: char) -> (r: bool)
    ensures
        r == token_break(prev, cur),
{
    let prev_lower = 'a' <= prev && prev <= 'z';
    let prev_letter = prev_lower || ('A' <= prev && prev <= 'Z');
    let cur_upper = 'A' <= cur && cur <= 'Z';
    let cur_digit = '0' <= cur && cur <= '9';
    (prev_lower && cur_upper) || (prev_letter && cur_digit)
}

/// Splits a filename into its lowercased tokens.
pub fn tokenize(filename: &str) -> (r: Vec<String>)
    ensures
        r.deep_view() == spec_tokenize(filename@),
{
    let ghost s = filename@;
    let n = filename.unicode_len();
    let mut tokens: Vec<String> = Vec::new();
    let mut i: usize = 0;
    proof {
        assert(s.skip(0) =~= s);
        assert(tokens.deep_view() =~= Seq::<Seq<char>>::empty());
        assert(Seq::<Seq<char>>::empty() + spec_tokenize(s) =~= spec_tokenize(s));
    }
    while i < n
        invariant
            n == s.len(),
            s == filename@,
            i <= n,
            spec_tokenize(s) == tokens.deep_view() + spec_tokenize(s.skip(i as int)),
        decreases n - i,
    {
        let c = filename.get_char(i);
        if !is_word_char_exec(c) {
            proof {
                assert(s.skip(i as int)[0] == s[i as int]);
                assert(s.skip(i as int).drop_first() =~= s.skip(i + 1));
            }
            i = i + 1;
        } else {
            let ghost start = i as int;
            let mut tok = String::new();
            crate::strutil::push_char(&mut tok, crate::strutil::lower_char_exec(c));
            let mut prev = c;
            i = i + 1;
            proof {
                assert(tok@ =~= lower_seq(s.subrange(start, i as int)));
            }
            let mut stop = false;
            while i < n && !stop
                invariant
                    n == s.len(),
                    s == filename@,
                    0 <= start < i <= n,
                    is_word_char(s[start]),
                    prev == s[i - 1],
                    forall|m: int|
                        start + 1 <= m < i ==> is_word_char(#[trigger] s[m]) && !token_break(
                            s[m - 1],
                            s[m],
                        ),
                    tok@ == lower_seq(s.subrange(start, i as int)),
                    stop ==> i < n && !(is_word_char(s[i as int]) && !token_break(
                        s[i - 1],
                        s[i as int],
                    )),
                decreases n - i, (if stop { 0int } else { 1int }),
            {
                let c2 = filename.get_char(i);
                if !(is_word_char_exec(c2) && !token_break_exec(prev, c2)) {
                    stop = true;
                } else {
                    crate::strutil::push_char(&mut tok, crate::strutil::lower_char_exec(c2));
                    proof {
                        assert(s.subrange(start, i + 1).drop_last() =~= s.subrange(
                            start,
                            i as int,
                        ));
                        assert(s.subrange(start, i + 1).last() == s[i as int]);
                        assert(lower_seq(s.subrange(start, i + 1)) =~= lower_seq(
                            s.subrange(start, i as int),
                        ).push(lower_char(s[i as int])));
                    }
                    prev = c2;
                    i = i + 1;
                }
            }
            proof {
                let t = s.skip(start);
                let k = i - start;
                assert(forall|m: int| 0 <= m < t.len() ==> t[m] == s[start + m]);
                lemma_run_ext_exact(t, k);
                assert(t.take(k) =~= s.subrange(start, i as int));
                assert(t.skip(k) =~= s.skip(i as int));
                assert(spec_tokenize(t) == seq![lower_seq(s.subrange(start, i as int))]
                    + spec_tokenize(s.skip(i as int)));
            }
            let ghost old_tokens = tokens.deep_view();
            tokens.push(tok);
            proof {
                assert(tokens.deep_view() =~= old_tokens.push(lower_seq(
                    s.subrange(start, i as int),
                )));
                assert(old_tokens.push(lower_seq(s.subrange(start, i as int)))
                    + spec_tokenize(s.skip(i as int)) =~= old_tokens + spec_tokenize(
                    s.skip(start),
                ));
            }
        }
    }
    proof {
        assert(s.skip(n as int) =~= Seq::<char>::empty());
        assert(tokens.deep_view() + Seq::<Seq<char>>::empty() =~= tokens.deep_view());
    }
    tokens
}

/// One filename appended to one token's bucket; an unseen token opens a new
/// bucket.
pub open spec fn idx_add_token(idx: TokenIndexView, tok: Seq<char>, name: Seq<char>) -> TokenIndexView {
    if al_contains(idx, tok) {
        let i = al_key_idx(idx, tok);
        idx.update(i, (idx[i].0, idx[i].1.push(name)))
    } else {
        idx.push((tok, seq![name]))
    }
}

/// One filename appended to the buckets of all its tokens, in token order.
/// A token repeated inside one filename is appended repeatedly; consumers
/// deduplicate.
pub open spec fn idx_add_tokens(
    idx: TokenIndexView,
    toks: Seq<Seq<char>>,
    name: Seq<char>,
) -> TokenIndexView
    decreases toks.len(),
{
    if toks.len() == 0 {
        idx
    } else {
        idx_add_tokens(idx_add_token(idx, toks[0], name), toks.drop_first(), name)
    }
}

/// Every filename key of a volume cache indexed into `idx`, in cache order.
pub open spec fn spec_index_volume(idx: TokenIndexView, v: VolumeCacheView) -> TokenIndexView
    decreases v.len(),
{
    if v.len() == 0 {
        idx
    } else {
        spec_index_volume(idx_add_tokens(idx, spec_tokenize(v[0].0), v[0].0), v.drop_first())
    }
}

/// The token index of one volume cache, built from nothing.
pub open spec fn spec_build_token_index(v: VolumeCacheView) -> TokenIndexView {
    spec_index_volume(Seq::empty(), v)
}

/// Every volume of the system cache indexed into `idx`, in volume order.
pub open spec fn spec_index_system(idx: TokenIndexView, s: SystemCacheView) -> TokenIndexView
    decreases s.len(),
{
    if s.len() == 0 {
        idx
    } else {
        spec_index_system(spec_index_volume(idx, s[0].1), s.drop_first())
    }
}

/// Appends `name` to the bucket of `tok`, opening the bucket when the token
/// is new.
fn add_token(idx: TokenIndex, tok: String, name: &String) -> (r: TokenIndex)
    ensures
        r@ == idx_add_token(idx@, tok@, name@),
{
    let ghost g = idx@;
    let mut idx = idx;
    match idx.index_of(tok.as_str()) {
        Some(i) => {
            let (key, mut bucket) = idx.remove_entry_at(i);
            bucket.push(name.clone());
            idx.insert_entry_at(i, key, bucket);
            proof {
                assert(bucket.deep_view() =~= g[i as int].1.push(name@));
                assert(idx@ =~= g.update(i as int, (g[i as int].0, g[i as int].1.push(name@))));
            }
            idx
        },
        None => {
            let mut bucket: Vec<String> = Vec::new();
            bucket.push(name.clone());
            let ghost gb = bucket.deep_view();
            idx.push(tok, bucket);
            proof {
                assert(gb =~= seq![name@]);
            }
            idx
        },
    }
}

/// Indexes every filename key of one volume cache into `idx`.
fn index_volume_into(idx: TokenIndex, cache: &VolumeCache) -> (r: TokenIndex)
    ensures
        r@ == spec_index_volume(idx@, cache@),
{
    let ghost g0 = idx@;
    let ghost gv = cache@;
    let mut idx = idx;
    let n = cache.len();
    proof {
        assert(gv.skip(0) =~= gv);
    }
    for ei in 0..n
        invariant
            n == gv.len(),
            cache@ == gv,
            spec_index_volume(g0, gv) == spec_index_volume(idx@, gv.skip(ei as int)),
    {
        let name = cache.key_at(ei);
        let toks = tokenize(name.as_str());
        let ghost gtoks = toks.deep_view();
        let ghost gidx = idx@;
        let m = toks.len();
        proof {
            assert(gtoks.skip(0) =~= gtoks);
        }
        for ti in 0..m
            invariant
                m == gtoks.len(),
                toks.deep_view() == gtoks,
                name@ == gv[ei as int].0,
                idx_add_tokens(gidx, gtoks, name@) == idx_add_tokens(
                    idx@,
                    gtoks.skip(ti as int),
                    name@,
                ),
        {
            let ghost before = idx@;
            let tok = toks[ti].clone();
            proof {
                assert(tok@ == gtoks[ti as int]);
            }
            idx = add_token(idx, tok, name);
            proof {
                assert(gtoks.skip(ti as int).drop_first() =~= gtoks.skip(ti + 1));
                assert(gtoks.skip(ti as int)[0] == gtoks[ti as int]);
            }
        }
        proof {
            assert(gtoks.skip(m as int) =~= Seq::<Seq<char>>::empty());
            assert(gv.skip(ei as int)[0] == gv[ei as int]);
            assert(gv.skip(ei as int).drop_first() =~= gv.skip(ei + 1));
            assert(spec_tokenize(gv[ei as int].0) == gtoks);
        }
    }
    proof {
        assert(gv.skip(n as int) =~= Seq::<(Seq<char>, Seq<crate::state::CachedPathView>)>::empty());
    }
    idx
}

/// Builds the token index of one volume cache: every filename key is
/// tokenized and appended to the bucket of each of its tokens.
pub fn build_token_index(cache: &VolumeCache) -> (r: TokenIndex)
    ensures
        r@ == spec_build_token_index(cache@),
{
    let idx = AssocList::new();
    index_volume_into(idx, cache)
}

/// Rebuilds the global token index from every volume of the system cache
/// and installs it, replacing the previous index in one step so readers
/// never see a partial merge.
pub fn build_token_index_root(state: &mut AppState)
    ensures
        final(state).system_cache@ == old(state).system_cache@,
        final(state).token_cache@ == spec_index_system(
            Seq::empty(),
            old(state).system_cache@,
        ),
        old(state).wf() ==> final(state).wf(),
{
    let ghost gs = state.system_cache@;
    let mut idx: TokenIndex = AssocList::new();
    let n = state.system_cache.len();
    proof {
        assert(gs.skip(0) =~= gs);
    }
    for vi in 0..n
        invariant
            n == gs.len(),
            state.system_cache@ == gs,
            state.token_cache@ == old(state).token_cache@,
            spec_index_system(Seq::empty(), gs) == spec_index_system(idx@, gs.skip(vi as int)),
    {
        let volume = state.system_cache.value_at(vi);
        idx = index_volume_into(idx, volume);
        proof {
            assert(gs.skip(vi as int)[0] == gs[vi as int]);
            assert(gs.skip(vi as int).drop_first() =~= gs.skip(vi + 1));
        }
    }
    proof {
        assert(gs.skip(n as int) =~= Seq::<(Seq<char>, VolumeCacheView)>::empty());
    }
    state.token_cache = idx;
}

/// Law: the token index is a function of the system cache alone, so a
/// rebuild over an unchanged cache yields for every token the same set of
/// filenames.
pub proof fn lemma_rebuild_same_sets(s: SystemCacheView, t1: TokenIndexView, t2: TokenIndexView)
    requires
        t1 == spec_index_system(Seq::empty(), s),
        t2 == spec_index_system(Seq::empty(), s),
    ensures
        forall|tok: Seq<char>| al_contains(t1, tok) == al_contains(t2, tok),
        forall|tok: Seq<char>|
            al_contains(t1, tok) ==> al_lookup(t1, tok).to_set() =~= al_lookup(t2, tok).to_set(),
{
}

} // verus!
