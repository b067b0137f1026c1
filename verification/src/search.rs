//! The search engine: tokenizes a query, gathers candidate filenames from
//! the token index, filters and fuzzy-ranks them against the live cache.
//!
//! A search never mutates the state it reads.  Results are capped at a
//! fixed limit; reaching the limit aborts further scoring and is reported
//! through the `more` flag.

use vstd::prelude::*;

use crate::alist::{al_contains, al_lookup};
use crate::describe::{get_file_description, spec_file_description};
use crate::state::{AppState, CachedPathView, FileType, SystemCacheView, TokenIndexView};
use crate::strutil::{
    contains_seq, contains_sub, get_extension, last_idx_of, lower_ascii, lower_seq, spec_extension,
    str_eq,
};
use crate::tokens::{spec_tokenize, tokenize};

verus! {

/// Candidates scoring below this are rejected.
pub const MINIMUM_SCORE: i64 = 20;

/// A search stops collecting once this many results have accumulated.
pub const RESULT_CAP: usize = 500;

/// An exact case-insensitive full-string match scores this fixed maximum.
pub const EXACT_SCORE: i64 = 1000;

/// The score fuzzy_matcher's `SkimMatcherV2` (default configuration, smart
/// case) assigns to a choice and pattern, or `None` when they do not match.
/// The score is a function of the two strings alone.
pub uninterp spec fn fuzzy_score(choice: Seq<char>, pattern: Seq<char>) -> Option<i64>;

/// Relies on fuzzy_matcher's `SkimMatcherV2::fuzzy_match` under the default
/// configuration with smart case: a deterministic score of the two strings.
#[verifier::external_body]
fn fuzzy_match_score(choice: &str, pattern: &str) -> (r: Option<i64>)
    ensures
        r == fuzzy_score(choice@, pattern@),
{
    let matcher = fuzzy_matcher::skim::SkimMatcherV2::default().smart_case();
    fuzzy_matcher::FuzzyMatcher::fuzzy_match(&matcher, choice, pattern)
}

/// The score of a filename against an already-lowercased query: the fixed
/// maximum on an exact case-insensitive match, the fuzzy score otherwise,
/// and zero when the matcher rejects the pair.
pub open spec fn spec_score(filename: Seq<char>, query_lower: Seq<char>) -> i64 {
    if lower_seq(filename) == query_lower {
        EXACT_SCORE
    } else {
        match fuzzy_score(filename, query_lower) {
            Some(sc) => sc,
            None => 0,
        }
    }
}

/// Gives a filename a match score against the lowercased query.
pub fn score_filename(filename: &str, query_lower: &str) -> (r: i64)
    ensures
        r == spec_score(filename@, query_lower@),
{
    let lowered = lower_ascii(filename);
    if str_eq(lowered.as_str(), query_lower) {
        EXACT_SCORE
    } else {
        match fuzzy_match_score(filename, query_lower) {
            Some(sc) => sc,
            None => 0,
        }
    }
}

/// Substrings that mark system noise; a filename containing one is never a
/// search result.
pub open spec fn spec_is_junk(name: Seq<char>) -> bool {
    ||| contains_seq(name, "$$_systemapps_"@)
    ||| contains_seq(name, "shared.index"@)
    ||| contains_seq(name, "com."@)
}

fn is_junk(name: &str) -> (r: bool)
    ensures
        r == spec_is_junk(name@),
{
    contains_sub(name, "$$_systemapps_") || contains_sub(name, "shared.index") || contains_sub(
        name,
        "com.",
    )
}

/// One search result: name, full path, kind, human-readable description,
/// and the score that ranked it.
pub struct SearchItem {
    pub name: String,
    pub file_path: String,
    pub file_type: FileType,
    pub description: String,
    pub score: i64,
}

pub struct SearchItemView {
    pub name: Seq<char>,
    pub file_path: Seq<char>,
    pub file_type: FileType,
    pub description: Seq<char>,
    pub score: i64,
}

impl View for SearchItem {
    type V = SearchItemView;

    open spec fn view(&self) -> SearchItemView {
        SearchItemView {
            name: self.name@,
            file_path: self.file_path@,
            file_type: self.file_type,
            description: self.description@,
            score: self.score,
        }
    }
}

impl DeepView for SearchItem {
    type V = SearchItemView;

    open spec fn deep_view(&self) -> SearchItemView {
        self.view()
    }
}

impl Clone for SearchItem {
    fn clone(&self) -> (r: Self)
        ensures
            r@ == self@,
    {
        SearchItem {
            name: self.name.clone(),
            file_path: self.file_path.clone(),
            file_type: self.file_type,
            description: self.description.clone(),
            score: self.score,
        }
    }
}

/// What a search returns: the ranked results, and whether collection
/// stopped at the cap with candidates left unscored.
pub struct SearchResult {
    pub results: Vec<SearchItem>,
    pub more: bool,
}

/// The trailing extension a query asks for: the part after its last dot, or
/// `None` when the query has no dot.
pub open spec fn spec_query_ext(q: Seq<char>) -> Option<Seq<char>> {
    if last_idx_of(q, '.') >= 0 {
        Some(q.subrange(last_idx_of(q, '.') + 1, q.len() as int))
    } else {
        None
    }
}

/// Whether one cached entry survives every filter against the lowercased
/// query, and the result it becomes.  Rejections: the kind is excluded by
/// the accept flags; the filename carries a junk substring; the query asks
/// for an extension the filename does not have; the entry is hidden by the
/// dot-prefix convention; the score is below the minimum.
pub open spec fn spec_check_entry(
    name: Seq<char>,
    path: Seq<char>,
    file_type: FileType,
    q: Seq<char>,
    accept_files: bool,
    accept_directories: bool,
) -> Option<SearchItemView> {
    let accept = if file_type is File {
        accept_files
    } else {
        accept_directories
    };
    if !accept {
        None
    } else if spec_is_junk(name) {
        None
    } else if (match spec_query_ext(q) {
        Some(ext) => lower_seq(spec_extension(name)) != ext,
        None => false,
    }) {
        None
    } else if name.len() > 0 && name[0] == '.' {
        None
    } else if spec_score(name, q) < MINIMUM_SCORE {
        None
    } else {
        Some(
            SearchItemView {
                name: name,
                file_path: path,
                file_type: file_type,
                description: spec_file_description(spec_extension(name)),
                score: spec_score(name, q),
            },
        )
    }
}

/// Checks one file candidate against the filters and appends it to the
/// results when it survives.
pub fn check_file(
    accept_files: bool,
    filename: &String,
    file_path: &String,
    query_lower: &String,
    results: &mut Vec<SearchItem>,
)
    ensures
        final(results).deep_view() == (match spec_check_entry(
            filename@,
            file_path@,
            FileType::File,
            query_lower@,
            accept_files,
            true,
        ) {
            Some(item) => old(results).deep_view().push(item),
            None => old(results).deep_view(),
        }),
{
    check_entry(
        accept_files,
        true,
        filename,
        file_path,
        FileType::File,
        query_lower,
        results,
    );
}

/// Shared filter-and-score step for one candidate path of either kind.
fn check_entry(
    accept_files: bool,
    accept_directories: bool,
    filename: &String,
    file_path: &String,
    file_type: FileType,
    query_lower: &String,
    results: &mut Vec<SearchItem>,
)
    ensures
        final(results).deep_view() == (match spec_check_entry(
            filename@,
            file_path@,
            file_type,
            query_lower@,
            accept_files,
            accept_directories,
        ) {
            Some(item) => old(results).deep_view().push(item),
            None => old(results).deep_view(),
        }),
{
    let accept = match file_type {
        FileType::File => accept_files,
        FileType::Directory => accept_directories,
    };
    if !accept {
        return ;
    }
    if is_junk(filename.as_str()) {
        return ;
    }
    match query_ext(query_lower) {
        Some(ext) => {
            let file_ext = lower_ascii(get_extension(filename.as_str()).as_str());
            if !str_eq(file_ext.as_str(), ext.as_str()) {
                return ;
            }
        },
        None => {},
    }
    if crate::strutil::is_hidden(filename.as_str()) {
        return ;
    }
    let score = score_filename(filename.as_str(), query_lower.as_str());
    if score < MINIMUM_SCORE {
        return ;
    }
    let extension = get_extension(filename.as_str());
    let description = get_file_description(extension.as_str());
    let ghost before = results.deep_view();
    results.push(
        SearchItem {
            name: filename.clone(),
            file_path: file_path.clone(),
            file_type,
            description: description.to_owned(),
            score,
        },
    );
    proof {
        assert(final(results).deep_view() =~= before.push(
            spec_check_entry(
                filename@,
                file_path@,
                file_type,
                query_lower@,
                accept_files,
                accept_directories,
            ).unwrap(),
        ));
    }
}

/// Extracts the extension the query asks for, when it holds a dot.
fn query_ext(q: &String) -> (r: Option<String>)
    ensures
        match r {
            Some(e) => spec_query_ext(q@) == Some(e@),
            None => spec_query_ext(q@) is None,
        },
{
    let s = q.as_str();
    let n = s.unicode_len();
    let mut dot: usize = 0;
    let mut seen: bool = false;
    for i in 0..n
        invariant
            n == s@.len(),
            seen ==> 0 <= dot < i && last_idx_of(s@.take(i as int), '.') == dot,
            !seen ==> last_idx_of(s@.take(i as int), '.') == -1,
    {
        proof {
            assert(s@.take(i + 1).drop_last() =~= s@.take(i as int));
            assert(s@.take(i + 1).last() == s@[i as int]);
        }
        if s.get_char(i) == '.' {
            dot = i;
            seen = true;
        }
    }
    proof {
        assert(s@.take(n as int) =~= s@);
    }
    if seen {
        Some(s.substring_char(dot + 1, n).to_owned())
    } else {
        None
    }
}

/// The filenames found in the token index for these query tokens, bucket
/// after bucket, duplicates still present.
pub open spec fn spec_candidates_raw(tc: TokenIndexView, toks: Seq<Seq<char>>) -> Seq<Seq<char>>
    decreases toks.len(),
{
    if toks.len() == 0 {
        Seq::empty()
    } else {
        (if al_contains(tc, toks[0]) {
            al_lookup(tc, toks[0])
        } else {
            Seq::empty()
        }) + spec_candidates_raw(tc, toks.drop_first())
    }
}

/// First-occurrence deduplication, keeping discovery order.
pub open spec fn spec_dedup_into(acc: Seq<Seq<char>>, s: Seq<Seq<char>>) -> Seq<Seq<char>>
    decreases s.len(),
{
    if s.len() == 0 {
        acc
    } else if acc.contains(s[0]) {
        spec_dedup_into(acc, s.drop_first())
    } else {
        spec_dedup_into(acc.push(s[0]), s.drop_first())
    }
}

/// Every cached path of this filename, across all volumes in volume order.
pub open spec fn spec_candidate_paths(s: SystemCacheView, name: Seq<char>) -> Seq<CachedPathView>
    decreases s.len(),
{
    if s.len() == 0 {
        Seq::empty()
    } else {
        (if al_contains(s[0].1, name) {
            al_lookup(s[0].1, name)
        } else {
            Seq::empty()
        }) + spec_candidate_paths(s.drop_first(), name)
    }
}

/// The paths of one candidate checked in order, each surviving one appended
/// while the results are below the cap.
pub open spec fn spec_scan_paths(
    paths: Seq<CachedPathView>,
    name: Seq<char>,
    q: Seq<char>,
    accept_files: bool,
    accept_directories: bool,
    acc: Seq<SearchItemView>,
) -> Seq<SearchItemView>
    decreases paths.len(),
{
    if paths.len() == 0 {
        acc
    } else {
        let acc2 = if acc.len() < RESULT_CAP {
            match spec_check_entry(
                name,
                paths[0].file_path,
                paths[0].file_type,
                q,
                accept_files,
                accept_directories,
            ) {
                Some(item) => acc.push(item),
                None => acc,
            }
        } else {
            acc
        };
        spec_scan_paths(paths.drop_first(), name, q, accept_files, accept_directories, acc2)
    }
}

/// Every candidate scanned in order over the whole system cache.
pub open spec fn spec_scan_candidates(
    s: SystemCacheView,
    cands: Seq<Seq<char>>,
    q: Seq<char>,
    accept_files: bool,
    accept_directories: bool,
    acc: Seq<SearchItemView>,
) -> Seq<SearchItemView>
    decreases cands.len(),
{
    if cands.len() == 0 {
        acc
    } else {
        spec_scan_candidates(
            s,
            cands.drop_first(),
            q,
            accept_files,
            accept_directories,
            spec_scan_paths(
                spec_candidate_paths(s, cands[0]),
                cands[0],
                q,
                accept_files,
                accept_directories,
                acc,
            ),
        )
    }
}

/// The unsorted search outcome: candidates from the token index,
/// deduplicated, then filtered and scored against the cache.
pub open spec fn spec_search_unsorted(
    state: SystemCacheView,
    tc: TokenIndexView,
    query: Seq<char>,
    accept_files: bool,
    accept_directories: bool,
) -> Seq<SearchItemView> {
    let cands = spec_dedup_into(Seq::empty(), spec_candidates_raw(tc, spec_tokenize(query)));
    spec_scan_candidates(
        state,
        cands,
        lower_seq(query),
        accept_files,
        accept_directories,
        Seq::empty(),
    )
}

/// Insertion into a descending-sorted sequence: the new item goes after
/// every item with an equal or better score, so ties keep discovery order.
pub open spec fn insert_desc(sorted: Seq<SearchItemView>, x: SearchItemView) -> Seq<SearchItemView>
    decreases sorted.len(),
{
    if sorted.len() == 0 {
        seq![x]
    } else if sorted.last().score >= x.score {
        sorted.push(x)
    } else {
        insert_desc(sorted.drop_last(), x).push(sorted.last())
    }
}

/// Stable sort by descending score.
pub open spec fn sort_desc(s: Seq<SearchItemView>) -> Seq<SearchItemView>
    decreases s.len(),
{
    if s.len() == 0 {
        Seq::empty()
    } else {
        insert_desc(sort_desc(s.drop_last()), s.last())
    }
}

pub open spec fn sorted_desc(s: Seq<SearchItemView>) -> bool {
    forall|i: int, j: int| 0 <= i < j < s.len() ==> s[i].score >= s[j].score
}

proof fn lemma_insert_desc_len(s: Seq<SearchItemView>, x: SearchItemView)
    ensures
        insert_desc(s, x).len() == s.len() + 1,
    decreases s.len(),
{
    if s.len() > 0 && !(s.last().score >= x.score) {
        lemma_insert_desc_len(s.drop_last(), x);
    }
}

pub proof fn lemma_sort_desc_len(s: Seq<SearchItemView>)
    ensures
        sort_desc(s).len() == s.len(),
    decreases s.len(),
{
    if s.len() > 0 {
        lemma_sort_desc_len(s.drop_last());
        lemma_insert_desc_len(sort_desc(s.drop_last()), s.last());
    }
}

proof fn lemma_insert_desc_sorted(s: Seq<SearchItemView>, x: SearchItemView)
    requires
        sorted_desc(s),
    ensures
        sorted_desc(insert_desc(s, x)),
        s.len() > 0 ==> forall|i: int|
            0 <= i < insert_desc(s, x).len() ==> (#[trigger] insert_desc(s, x)[i]).score >= x.score
                || insert_desc(s, x)[i].score >= s.last().score,
    decreases s.len(),
{
    if s.len() == 0 {
        assert(insert_desc(s, x) =~= seq![x]);
    } else if s.last().score >= x.score {
        let r = s.push(x);
        assert forall|i: int, j: int| 0 <= i < j < r.len() implies r[i].score >= r[j].score by {
            if j == r.len() - 1 {
                if i < s.len() - 1 {
                    assert(s[i].score >= s[s.len() - 1].score);
                }
            }
        }
    } else {
        lemma_insert_desc_sorted(s.drop_last(), x);
        let inner = insert_desc(s.drop_last(), x);
        let r = inner.push(s.last());
        lemma_insert_desc_len(s.drop_last(), x);
        if s.len() == 1 {
            assert(inner =~= seq![x]);
        }
        assert forall|i: int|
            0 <= i < inner.len() implies inner[i].score >= s.last().score by {
            if s.len() > 1 {
                assert(inner[i].score >= x.score || inner[i].score >= s.drop_last().last().score);
                assert(s.drop_last().last() == s[s.len() - 2]);
                assert(s[s.len() - 2].score >= s[s.len() - 1].score);
            }
        }
        assert forall|i: int, j: int| 0 <= i < j < r.len() implies r[i].score >= r[j].score by {
            if j < r.len() - 1 {
                assert(r[i] == inner[i] && r[j] == inner[j]);
            } else {
                assert(r[j] == s.last());
                assert(r[i] == inner[i]);
            }
        }
    }
}

/// Law: the sort leaves the results ordered by descending score.
pub proof fn lemma_sort_desc_sorted(s: Seq<SearchItemView>)
    ensures
        sorted_desc(sort_desc(s)),
    decreases s.len(),
{
    if s.len() > 0 {
        lemma_sort_desc_sorted(s.drop_last());
        lemma_insert_desc_sorted(sort_desc(s.drop_last()), s.last());
    }
}

proof fn lemma_insert_desc_at(s: Seq<SearchItemView>, x: SearchItemView, j: int)
    requires
        0 <= j <= s.len(),
        forall|m: int| j <= m < s.len() ==> (#[trigger] s[m]).score < x.score,
        j > 0 ==> s[j - 1].score >= x.score,
    ensures
        insert_desc(s, x) == s.insert(j, x),
    decreases s.len(),
{
    if j == s.len() {
        if s.len() == 0 {
            assert(insert_desc(s, x) =~= s.insert(j, x));
        } else {
            assert(insert_desc(s, x) =~= s.insert(j, x));
        }
    } else {
        assert(s.last().score < x.score);
        lemma_insert_desc_at(s.drop_last(), x, j);
        assert(insert_desc(s.drop_last(), x).push(s.last()) =~= s.insert(j, x));
    }
}

/// Sorts the collected results by descending score; ties keep their
/// discovery order.
fn sort_by_score(items: Vec<SearchItem>) -> (r: Vec<SearchItem>)
    ensures
        r.deep_view() == sort_desc(items.deep_view()),
{
    let ghost gs = items.deep_view();
    let mut out: Vec<SearchItem> = Vec::new();
    let n = items.len();
    proof {
        assert(gs.take(0) =~= Seq::<SearchItemView>::empty());
    }
    for idx in 0..n
        invariant
            n == gs.len(),
            items.deep_view() == gs,
            out.deep_view() == sort_desc(gs.take(idx as int)),
    {
        let x = items[idx].clone();
        let mut j = out.len();
        while j > 0 && out[j - 1].score < x.score
            invariant
                j <= out.len(),
                x@ == gs[idx as int],
                out.deep_view() == sort_desc(gs.take(idx as int)),
                forall|m: int|
                    j <= m < out.len() ==> (#[trigger] out.deep_view()[m]).score < x@.score,
            decreases j,
        {
            j = j - 1;
        }
        let ghost before = out.deep_view();
        out.insert(j, x);
        proof {
            lemma_insert_desc_at(before, gs[idx as int], j as int);
            assert(out.deep_view() =~= before.insert(j as int, gs[idx as int]));
            assert(gs.take(idx + 1).drop_last() =~= gs.take(idx as int));
            assert(gs.take(idx + 1).last() == gs[idx as int]);
        }
    }
    proof {
        assert(gs.take(n as int) =~= gs);
    }
    out
}

proof fn lemma_scan_paths_cap(
    paths: Seq<CachedPathView>,
    name: Seq<char>,
    q: Seq<char>,
    af: bool,
    ad: bool,
    acc: Seq<SearchItemView>,
)
    requires
        acc.len() <= RESULT_CAP,
    ensures
        spec_scan_paths(paths, name, q, af, ad, acc).len() <= RESULT_CAP,
        spec_scan_paths(paths, name, q, af, ad, acc).len() >= acc.len(),
    decreases paths.len(),
{
    if paths.len() > 0 {
        let acc2 = if acc.len() < RESULT_CAP {
            match spec_check_entry(name, paths[0].file_path, paths[0].file_type, q, af, ad) {
                Some(item) => acc.push(item),
                None => acc,
            }
        } else {
            acc
        };
        lemma_scan_paths_cap(paths.drop_first(), name, q, af, ad, acc2);
    }
}

proof fn lemma_scan_candidates_cap(
    s: SystemCacheView,
    cands: Seq<Seq<char>>,
    q: Seq<char>,
    af: bool,
    ad: bool,
    acc: Seq<SearchItemView>,
)
    requires
        acc.len() <= RESULT_CAP,
    ensures
        spec_scan_candidates(s, cands, q, af, ad, acc).len() <= RESULT_CAP,
        spec_scan_candidates(s, cands, q, af, ad, acc).len() >= acc.len(),
    decreases cands.len(),
{
    if cands.len() > 0 {
        lemma_scan_paths_cap(spec_candidate_paths(s, cands[0]), cands[0], q, af, ad, acc);
        lemma_scan_candidates_cap(
            s,
            cands.drop_first(),
            q,
            af,
            ad,
            spec_scan_paths(spec_candidate_paths(s, cands[0]), cands[0], q, af, ad, acc),
        );
    }
}

/// Gathers, deduplicates, filters, scores and ranks the cached entries
/// matching a query.  Results never exceed the cap, and `more` reports
/// exactly whether the cap was reached.  An empty or tokenless query gives
/// an empty result.
pub fn search_directory(
    state: &AppState,
    query: &str,
    _mount_pnt: &str,
    accept_files: bool,
    accept_directories: bool,
) -> (r: SearchResult)
    ensures
        r.results.deep_view() == sort_desc(
            spec_search_unsorted(
                state.system_cache@,
                state.token_cache@,
                query@,
                accept_files,
                accept_directories,
            ),
        ),
        r.results.deep_view().len() <= RESULT_CAP,
        r.more == (spec_search_unsorted(
            state.system_cache@,
            state.token_cache@,
            query@,
            accept_files,
            accept_directories,
        ).len() == RESULT_CAP),
        r.more ==> r.results.deep_view().len() == RESULT_CAP,
        sorted_desc(r.results.deep_view()),
        spec_tokenize(query@).len() == 0 ==> r.results.deep_view().len() == 0 && !r.more,
{
    let ghost gsys = state.system_cache@;
    let ghost gtc = state.token_cache@;
    let query_tokens = tokenize(query);
    let ghost gtoks = query_tokens.deep_view();

    // Union of the token buckets, in token order.
    let mut raw: Vec<String> = Vec::new();
    let tn = query_tokens.len();
    proof {
        assert(gtoks.skip(0) =~= gtoks);
        assert(raw.deep_view() =~= Seq::<Seq<char>>::empty());
        assert(Seq::<Seq<char>>::empty() + spec_candidates_raw(gtc, gtoks) =~= spec_candidates_raw(
            gtc,
            gtoks,
        ));
    }
    for ti in 0..tn
        invariant
            tn == gtoks.len(),
            query_tokens.deep_view() == gtoks,
            state.token_cache@ == gtc,
            raw.deep_view() + spec_candidates_raw(gtc, gtoks.skip(ti as int))
                == spec_candidates_raw(gtc, gtoks),
    {
        let ghost before = raw.deep_view();
        match state.token_cache.get(query_tokens[ti].as_str()) {
            Some(bucket) => {
                let m = bucket.len();
                for bi in 0..m
                    invariant
                        m == bucket@.len(),
                        bucket.deep_view() == al_lookup(gtc, gtoks[ti as int]),
                        al_contains(gtc, gtoks[ti as int]),
                        raw.deep_view() == before + bucket.deep_view().take(bi as int),
                {
                    raw.push(bucket[bi].clone());
                    proof {
                        assert(raw.deep_view() =~= (before + bucket.deep_view().take(
                            bi as int,
                        )).push(bucket.deep_view()[bi as int]));
                        assert((before + bucket.deep_view().take(bi as int)).push(
                            bucket.deep_view()[bi as int],
                        ) =~= before + bucket.deep_view().take(bi + 1));
                    }
                }
                proof {
                    assert(bucket.deep_view().take(m as int) =~= bucket.deep_view());
                }
            },
            None => {},
        }
        proof {
            assert(gtoks.skip(ti as int)[0] == gtoks[ti as int]);
            assert(gtoks.skip(ti as int).drop_first() =~= gtoks.skip(ti + 1));
            assert(raw.deep_view() + spec_candidates_raw(gtc, gtoks.skip(ti + 1)) =~= before
                + spec_candidates_raw(gtc, gtoks.skip(ti as int)));
        }
    }
    proof {
        assert(gtoks.skip(tn as int) =~= Seq::<Seq<char>>::empty());
        assert(raw.deep_view() + Seq::<Seq<char>>::empty() =~= raw.deep_view());
    }

    // First-occurrence deduplication.
    let ghost graw = raw.deep_view();
    let mut candidates: Vec<String> = Vec::new();
    let rn = raw.len();
    proof {
        assert(graw.skip(0) =~= graw);
        assert(candidates.deep_view() =~= Seq::<Seq<char>>::empty());
    }
    for ri in 0..rn
        invariant
            rn == graw.len(),
            raw.deep_view() == graw,
            spec_dedup_into(Seq::empty(), graw) == spec_dedup_into(
                candidates.deep_view(),
                graw.skip(ri as int),
            ),
    {
        let mut found = false;
        let cn = candidates.len();
        for ci in 0..cn
            invariant
                cn == candidates@.len(),
                found ==> candidates.deep_view().contains(graw[ri as int]),
                !found ==> forall|l: int|
                    0 <= l < ci ==> candidates.deep_view()[l] != graw[ri as int],
                raw.deep_view() == graw,
                rn == graw.len(),
                ri < rn,
        {
            if !found && str_eq(candidates[ci].as_str(), raw[ri].as_str()) {
                proof {
                    assert(candidates.deep_view()[ci as int] == graw[ri as int]);
                }
                found = true;
            }
        }
        let ghost before = candidates.deep_view();
        if !found {
            candidates.push(raw[ri].clone());
        }
        proof {
            assert(graw.skip(ri as int)[0] == graw[ri as int]);
            assert(graw.skip(ri as int).drop_first() =~= graw.skip(ri + 1));
            if found {
            } else {
                assert(!before.contains(graw[ri as int]));
                assert(candidates.deep_view() =~= before.push(graw[ri as int]));
            }
        }
    }
    proof {
        assert(graw.skip(rn as int) =~= Seq::<Seq<char>>::empty());
    }

    // Filter and score every path of every candidate, stopping at the cap.
    let query_lower = lower_ascii(query);
    let ghost gq = lower_seq(query@);
    let ghost gcands = candidates.deep_view();
    let mut results: Vec<SearchItem> = Vec::new();
    let cn = candidates.len();
    proof {
        assert(gcands.skip(0) =~= gcands);
        assert(results.deep_view() =~= Seq::<SearchItemView>::empty());
    }
    for ci in 0..cn
        invariant
            cn == gcands.len(),
            candidates.deep_view() == gcands,
            state.system_cache@ == gsys,
            state.token_cache@ == gtc,
            query_lower@ == gq,
            results.deep_view().len() <= RESULT_CAP,
            spec_scan_candidates(gsys, gcands, gq, accept_files, accept_directories, Seq::empty())
                == spec_scan_candidates(
                gsys,
                gcands.skip(ci as int),
                gq,
                accept_files,
                accept_directories,
                results.deep_view(),
            ),
    {
        let name = &candidates[ci];
        let ghost acc0 = results.deep_view();

        // Gather this candidate's paths across the volumes, in order.
        let mut paths: Vec<crate::state::CachedPath> = Vec::new();
        let vn = state.system_cache.len();
        proof {
            assert(gsys.skip(0) =~= gsys);
            assert(paths.deep_view() =~= Seq::<CachedPathView>::empty());
            assert(Seq::<CachedPathView>::empty() + spec_candidate_paths(gsys, name@)
                =~= spec_candidate_paths(gsys, name@));
        }
        for vi in 0..vn
            invariant
                vn == gsys.len(),
                state.system_cache@ == gsys,
                name@ == gcands[ci as int],
                paths.deep_view() + spec_candidate_paths(gsys.skip(vi as int), name@)
                    == spec_candidate_paths(gsys, name@),
        {
            let ghost pbefore = paths.deep_view();
            let volume = state.system_cache.value_at(vi);
            match volume.get(name.as_str()) {
                Some(bucket) => {
                    let bn = bucket.len();
                    for bi in 0..bn
                        invariant
                            bn == bucket@.len(),
                            bucket.deep_view() == al_lookup(gsys[vi as int].1, name@),
                            paths.deep_view() == pbefore + bucket.deep_view().take(bi as int),
                    {
                        paths.push(bucket[bi].clone());
                        proof {
                            assert(paths.deep_view() =~= (pbefore + bucket.deep_view().take(
                                bi as int,
                            )).push(bucket.deep_view()[bi as int]));
                            assert((pbefore + bucket.deep_view().take(bi as int)).push(
                                bucket.deep_view()[bi as int],
                            ) =~= pbefore + bucket.deep_view().take(bi + 1));
                        }
                    }
                    proof {
                        assert(bucket.deep_view().take(bn as int) =~= bucket.deep_view());
                    }
                },
                None => {},
            }
            proof {
                assert(gsys.skip(vi as int)[0] == gsys[vi as int]);
                assert(gsys.skip(vi as int).drop_first() =~= gsys.skip(vi + 1));
                assert(paths.deep_view() + spec_candidate_paths(gsys.skip(vi + 1), name@)
                    =~= pbefore + spec_candidate_paths(gsys.skip(vi as int), name@));
            }
        }
        proof {
            assert(gsys.skip(vn as int) =~= Seq::<(Seq<char>, crate::state::VolumeCacheView)>::empty());
            assert(paths.deep_view() + Seq::<CachedPathView>::empty() =~= paths.deep_view());
        }

        // Check each path while below the cap.
        let ghost gpaths = paths.deep_view();
        let pn = paths.len();
        proof {
            assert(gpaths.skip(0) =~= gpaths);
        }
        for pi in 0..pn
            invariant
                pn == gpaths.len(),
                paths.deep_view() == gpaths,
                query_lower@ == gq,
                name@ == gcands[ci as int],
                results.deep_view().len() <= RESULT_CAP,
                spec_scan_paths(gpaths, name@, gq, accept_files, accept_directories, acc0)
                    == spec_scan_paths(
                    gpaths.skip(pi as int),
                    name@,
                    gq,
                    accept_files,
                    accept_directories,
                    results.deep_view(),
                ),
        {
            let ghost rbefore = results.deep_view();
            if results.len() < RESULT_CAP {
                check_entry(
                    accept_files,
                    accept_directories,
                    name,
                    &paths[pi].file_path,
                    paths[pi].file_type,
                    &query_lower,
                    &mut results,
                );
            }
            proof {
                assert(gpaths.skip(pi as int)[0] == gpaths[pi as int]);
                assert(gpaths.skip(pi as int).drop_first() =~= gpaths.skip(pi + 1));
                assert(gpaths[pi as int] == (CachedPathView {
                    file_path: paths.deep_view()[pi as int].file_path,
                    file_type: paths.deep_view()[pi as int].file_type,
                }));
            }
        }
        proof {
            assert(gpaths.skip(pn as int) =~= Seq::<CachedPathView>::empty());
            assert(gcands.skip(ci as int)[0] == gcands[ci as int]);
            assert(gcands.skip(ci as int).drop_first() =~= gcands.skip(ci + 1));
        }
    }
    proof {
        assert(gcands.skip(cn as int) =~= Seq::<Seq<char>>::empty());
    }

    let more = results.len() == RESULT_CAP;
    let sorted = sort_by_score(results);
    proof {
        lemma_sort_desc_len(
            spec_search_unsorted(gsys, gtc, query@, accept_files, accept_directories),
        );
        lemma_sort_desc_sorted(
            spec_search_unsorted(gsys, gtc, query@, accept_files, accept_directories),
        );
        if spec_tokenize(query@).len() == 0 {
            assert(spec_candidates_raw(gtc, spec_tokenize(query@))
                =~= Seq::<Seq<char>>::empty());
            assert(spec_search_unsorted(gsys, gtc, query@, accept_files, accept_directories)
                =~= Seq::<SearchItemView>::empty());
        }
    }
    SearchResult { results: sorted, more }
}

} // verus!
