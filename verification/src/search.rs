//! Free-text search over page metadata.
//!
//! A query is normalized (non-word characters become spaces, words are
//! lower-cased), then scored per visible page against titles, categories and
//! keywords; results come back sorted ascending by score.

use vstd::prelude::*;
use crate::cond::{spec_eval_all, ConfigError};
use crate::manifest::{
    spec_page_categories, spec_page_display_name, spec_page_keywords, spec_page_title_peers, Page,
};
use crate::observed::ObservedSet;
use crate::text::str_eq;
use crate::unicode::{char_is_space, char_is_word, is_space_char, is_word_char, lower_of, to_lower};

verus! {

/// Characters kept by normalization: alphanumerics and the apostrophe.
pub open spec fn keep_char(c: char) -> bool {
    is_word_char(c) || c == '\''
}

/// `s` with every non-kept character replaced by a space.
pub open spec fn cleaned(s: Seq<char>) -> Seq<char> {
    s.map_values(
        |c: char|
            if keep_char(c) {
                c
            } else {
                ' '
            },
    )
}

/// Replaces every character that is not alphanumeric or an apostrophe by a
/// space.
pub fn cleanup(s: &str) -> (r: String)
    ensures
        r@ == cleaned(s@),
{
    let len = s.unicode_len();
    let mut out = String::new();
    let mut i: usize = 0;
    while i < len
        invariant
            s@.len() == len,
            i <= len,
            out@ == cleaned(s@.subrange(0, i as int)),
        decreases len - i,
    {
        let c = s.get_char(i);
        if char_is_word(c) || c == '\'' {
            let one = s.substring_char(i, i + 1);
            out.append(one);
        } else {
            out.append(" ");
        }
        proof {
            reveal_strlit(" ");
            assert(out@ =~= cleaned(s@.subrange(0, i + 1 as int)));
        }
        i = i + 1;
    }
    proof {
        assert(s@.subrange(0, s@.len() as int) =~= s@);
    }
    out
}

/// The end of the word starting at `i`: the first position at or after `i`
/// holding a whitespace character, or the end of `s`.
pub open spec fn word_end(s: Seq<char>, i: int) -> int
    decreases s.len() - i,
{
    if !(0 <= i < s.len()) {
        i
    } else if is_space_char(s[i]) {
        i
    } else {
        word_end(s, i + 1)
    }
}

pub proof fn lemma_word_end(s: Seq<char>, i: int)
    requires
        0 <= i <= s.len(),
    ensures
        i <= word_end(s, i) <= s.len(),
        forall|j: int| i <= j < word_end(s, i) ==> !is_space_char(s[j]),
        word_end(s, i) == s.len() || is_space_char(s[word_end(s, i)]),
    decreases s.len() - i,
{
    if i < s.len() && !is_space_char(s[i]) {
        lemma_word_end(s, i + 1);
    }
}

/// The raw (not yet lower-cased) words of `s` from position `i` on:
/// maximal runs of non-whitespace characters.
pub open spec fn raw_words_from(s: Seq<char>, i: int) -> Seq<Seq<char>>
    decreases s.len() - i, via raw_words_from_dec
{
    if !(0 <= i < s.len()) {
        Seq::empty()
    } else if is_space_char(s[i]) {
        raw_words_from(s, i + 1)
    } else {
        seq![s.subrange(i, word_end(s, i))] + raw_words_from(s, word_end(s, i))
    }
}

#[via_fn]
proof fn raw_words_from_dec(s: Seq<char>, i: int) {
    if 0 <= i < s.len() && !is_space_char(s[i]) {
        lemma_word_end(s, i);
    }
}

/// The tokens of `s`: its raw words, each lower-cased.
pub open spec fn spec_tokens(s: Seq<char>) -> Seq<Seq<char>> {
    raw_words_from(s, 0).map_values(|t: Seq<char>| lower_of(t))
}

/// Splits `input` on whitespace and lower-cases each word.
pub fn tokenize(input: &str) -> (r: Vec<String>)
    ensures
        r@.map_values(|t: String| t@) == spec_tokens(input@),
{
    let len = input.unicode_len();
    let mut out: Vec<String> = Vec::new();
    let mut i: usize = 0;
    while i < len
        invariant
            input@.len() == len,
            i <= len,
            spec_tokens(input@) == out@.map_values(|t: String| t@) + raw_words_from(
                input@,
                i as int,
            ).map_values(|t: Seq<char>| lower_of(t)),
        decreases len - i,
    {
        let c = input.get_char(i);
        if char_is_space(c) {
            i = i + 1;
        } else {
            let ghost start = i as int;
            let mut j: usize = i + 1;
            while j < len && !char_is_space(input.get_char(j))
                invariant
                    input@.len() == len,
                    start < j <= len,
                    0 <= start,
                    word_end(input@, start) == word_end(input@, j as int),
                    forall|k: int| start <= k < j ==> !is_space_char(input@[k]),
                decreases len - j,
            {
                j = j + 1;
            }
            proof {
                assert(word_end(input@, j as int) == j);
                lemma_word_end(input@, start);
            }
            let word = input.substring_char(i, j);
            let token = to_lower(word);
            proof {
                let prev = out@.map_values(|t: String| t@);
                let words = raw_words_from(input@, start);
                assert(words == seq![input@.subrange(start, j as int)] + raw_words_from(
                    input@,
                    j as int,
                ));
                assert((out@.push(token)).map_values(|t: String| t@) =~= prev + seq![token@]);
                assert(words.map_values(|t: Seq<char>| lower_of(t)) =~= seq![
                    lower_of(input@.subrange(start, j as int)),
                ] + raw_words_from(input@, j as int).map_values(|t: Seq<char>| lower_of(t)));
            }
            out.push(token);
            i = j;
        }
    }
    proof {
        assert(out@.map_values(|t: String| t@) =~= spec_tokens(input@));
    }
    out
}


/// An error that aborts a search.
#[derive(Clone, Copy, Debug, PartialEq, Eq, Structural)]
pub enum SearchError {
    /// A malformed condition token in the page metadata.
    Config(ConfigError),
    /// The query has more tokens than scores can be computed for exactly
    /// in machine integers.
    QueryTooLong,
}

/// The most tokens a query may have; beyond this the scores would not fit
/// the result's integer type.
pub const MAX_QUERY_TOKENS: usize = 2097152;

/// One ranked search result.
pub struct SearchHit {
    /// The page's URL key.
    pub page_url: String,
    /// The page's display name.
    pub title: String,
    /// The page's relevance score; results are shown lowest first.
    pub score: u64,
}

/// The spec view of one hit.
pub open spec fn hit_view(h: SearchHit) -> (Seq<char>, Seq<char>, int) {
    (h.page_url@, h.title@, h.score as int)
}

/// The spec view of a hit list.
pub open spec fn hits_view(s: Seq<SearchHit>) -> Seq<(Seq<char>, Seq<char>, int)> {
    s.map_values(|h: SearchHit| hit_view(h))
}

/// The larger of two integers.
pub open spec fn imax(a: int, b: int) -> int {
    if a >= b {
        a
    } else {
        b
    }
}

/// The normalized tokens of a free-text query or of a title.
pub open spec fn spec_norm(s: Seq<char>) -> Seq<Seq<char>> {
    spec_tokens(cleaned(s))
}

/// Whether `tok` stands in `target` at or after position `i`.
pub open spec fn token_in(target: Seq<Seq<char>>, tok: Seq<char>, i: int) -> bool
    decreases target.len() - i,
{
    if !(0 <= i < target.len()) {
        false
    } else if target[i] == tok {
        true
    } else {
        token_in(target, tok, i + 1)
    }
}

/// How many query tokens from position `i` on stand in `target`.
pub open spec fn spec_overlap(query: Seq<Seq<char>>, target: Seq<Seq<char>>, i: int) -> int
    decreases query.len() - i,
{
    if !(0 <= i < query.len()) {
        0
    } else {
        (if token_in(target, query[i], 0) {
            1int
        } else {
            0int
        }) + spec_overlap(query, target, i + 1)
    }
}

/// The overlap counts at most the query tokens.
pub proof fn lemma_overlap_bound(query: Seq<Seq<char>>, target: Seq<Seq<char>>, i: int)
    requires
        0 <= i <= query.len(),
    ensures
        0 <= spec_overlap(query, target, i) <= query.len() - i,
    decreases query.len() - i,
{
    if i < query.len() {
        lemma_overlap_bound(query, target, i + 1);
    }
}

/// The best overlap against any of the token lists of `items`, each
/// normalized, from position `i` on.
pub open spec fn spec_best_overlap(query: Seq<Seq<char>>, items: Seq<Seq<char>>, i: int) -> int
    decreases items.len() - i,
{
    if !(0 <= i < items.len()) {
        0
    } else {
        imax(
            spec_overlap(query, spec_norm(items[i]), 0),
            spec_best_overlap(query, items, i + 1),
        )
    }
}

/// Whether the query exactly equals the normalized tokens of any of
/// `items`, from position `i` on.
pub open spec fn spec_any_exact(query: Seq<Seq<char>>, items: Seq<Seq<char>>, i: int) -> bool
    decreases items.len() - i,
{
    if !(0 <= i < items.len()) {
        false
    } else if spec_norm(items[i]) == query {
        true
    } else {
        spec_any_exact(query, items, i + 1)
    }
}

/// The score of one page: the best of the three channels, each overlap
/// count weighted by its channel's weight, where `n` is the query's token
/// count: titles weigh `n * n + 1`, categories `n + 1`, keywords `1`. The
/// title channel counts shared tokens against the display name, the URL
/// key, and every active alias title, and keeps the best.
pub open spec fn spec_page_score(
    query: Seq<Seq<char>>,
    p: Page,
    peers: Seq<Seq<char>>,
    cats: Seq<Seq<char>>,
    kws: Seq<Seq<char>>,
) -> int {
    let n = query.len() as int;
    let title_count = imax(
        imax(
            spec_overlap(query, spec_norm(spec_page_display_name(p)), 0),
            spec_overlap(query, spec_norm(p.page_url@), 0),
        ),
        spec_best_overlap(query, peers, 0),
    );
    let cat_count = spec_best_overlap(query, cats, 0);
    let kw_count = spec_overlap(query, kws, 0);
    imax(imax(title_count * (n * n + 1), cat_count * (n + 1)), kw_count)
}

/// Whether one page is an exact match for the query: the query equals the
/// normalized title, URL key, or any active alias title.
pub open spec fn spec_page_exact(query: Seq<Seq<char>>, p: Page, peers: Seq<Seq<char>>) -> bool {
    spec_norm(spec_page_display_name(p)) == query || spec_norm(p.page_url@) == query
        || spec_any_exact(query, peers, 0)
}

/// One pass over the pages from position `i` on: the last exact match and
/// the unsorted hits of every visible page with a positive score, or the
/// first configuration error, page by page in the order alias titles,
/// categories, keywords.
pub open spec fn spec_scan(
    query: Seq<Seq<char>>,
    pages: Seq<Page>,
    observed: Set<Seq<char>>,
    prefix: Seq<char>,
    i: int,
) -> Result<(Option<Seq<char>>, Seq<(Seq<char>, Seq<char>, int)>), ConfigError>
    decreases pages.len() - i,
{
    if !(0 <= i < pages.len()) {
        Ok((None, Seq::empty()))
    } else {
        let p = pages[i];
        match spec_eval_all(observed, prefix, p.show_cond@.map_values(|c: String| c@)) {
            Err(e) => Err(e),
            Ok(false) => spec_scan(query, pages, observed, prefix, i + 1),
            Ok(true) => match spec_page_title_peers(p, observed, prefix) {
                Err(e) => Err(e),
                Ok(peers) => match spec_page_categories(p, observed, prefix) {
                    Err(e) => Err(e),
                    Ok(cats) => match spec_page_keywords(p, observed, prefix) {
                        Err(e) => Err(e),
                        Ok(kws) => match spec_scan(query, pages, observed, prefix, i + 1) {
                            Err(e) => Err(e),
                            Ok(rest) => {
                                let sc = spec_page_score(query, p, peers, cats, kws);
                                let here_exact = spec_page_exact(query, p, peers);
                                Ok(
                                    (
                                        if rest.0 is Some {
                                            rest.0
                                        } else if here_exact {
                                            Some(p.page_url@)
                                        } else {
                                            None
                                        },
                                        (if sc > 0 {
                                            seq![
                                                (p.page_url@, spec_page_display_name(p), sc),
                                            ]
                                        } else {
                                            Seq::empty()
                                        }) + rest.1,
                                    ),
                                )
                            },
                        },
                    },
                },
            },
        }
    }
}

/// Inserts `x` into a sorted hit list: before the first strictly greater
/// score, so equal scores keep their order.
pub open spec fn spec_insert_hit(
    x: (Seq<char>, Seq<char>, int),
    sorted: Seq<(Seq<char>, Seq<char>, int)>,
) -> Seq<(Seq<char>, Seq<char>, int)>
    decreases sorted.len(),
{
    if sorted.len() == 0 {
        seq![x]
    } else if x.2 < sorted[0].2 {
        seq![x] + sorted
    } else {
        seq![sorted[0]] + spec_insert_hit(x, sorted.drop_first())
    }
}

/// Sorts hits ascending by score, stably.
pub open spec fn spec_sort_hits(s: Seq<(Seq<char>, Seq<char>, int)>) -> Seq<
    (Seq<char>, Seq<char>, int),
>
    decreases s.len(),
{
    if s.len() == 0 {
        Seq::empty()
    } else {
        spec_insert_hit(s.last(), spec_sort_hits(s.drop_last()))
    }
}

/// What a search yields: the page to navigate to when the query is an
/// exact title match, and the visible pages with a positive score, sorted
/// ascending by score.
pub open spec fn spec_search(
    query: Seq<char>,
    pages: Seq<Page>,
    observed: Set<Seq<char>>,
    prefix: Seq<char>,
) -> Result<(Option<Seq<char>>, Seq<(Seq<char>, Seq<char>, int)>), SearchError> {
    let qn = spec_norm(query);
    if qn.len() > MAX_QUERY_TOKENS {
        Err(SearchError::QueryTooLong)
    } else {
        match spec_scan(qn, pages, observed, prefix, 0) {
            Err(e) => Err(SearchError::Config(e)),
            Ok(r) => Ok((r.0, spec_sort_hits(r.1))),
        }
    }
}

/// Whether `tok` stands in `target`.
fn token_list_has(target: &Vec<String>, tok: &str) -> (r: bool)
    ensures
        r == token_in(target@.map_values(|t: String| t@), tok@, 0),
{
    let ghost tv = target@.map_values(|t: String| t@);
    let n = target.len();
    let mut i: usize = 0;
    while i < n
        invariant
            n == target@.len(),
            i <= n,
            tv == target@.map_values(|t: String| t@),
            token_in(tv, tok@, 0) == token_in(tv, tok@, i as int),
        decreases n - i,
    {
        if str_eq(target[i].as_str(), tok) {
            return true;
        }
        i = i + 1;
    }
    false
}

/// `s` with every later repeat of a token dropped: a set of tokens, in
/// first-sight order.
pub open spec fn spec_dedup(s: Seq<Seq<char>>) -> Seq<Seq<char>>
    decreases s.len(),
{
    if s.len() == 0 {
        Seq::empty()
    } else {
        let prev = spec_dedup(s.drop_last());
        if token_in(prev, s.last(), 0) {
            prev
        } else {
            prev.push(s.last())
        }
    }
}

/// Drops every later repeat of a token, keeping first-sight order.
pub fn dedup_tokens(tokens: Vec<String>) -> (r: Vec<String>)
    ensures
        r@.map_values(|t: String| t@) == spec_dedup(tokens@.map_values(|t: String| t@)),
{
    let ghost tv = tokens@.map_values(|t: String| t@);
    let n = tokens.len();
    let mut out: Vec<String> = Vec::new();
    let mut i: usize = 0;
    while i < n
        invariant
            n == tokens@.len(),
            i <= n,
            tv == tokens@.map_values(|t: String| t@),
            out@.map_values(|t: String| t@) == spec_dedup(tv.subrange(0, i as int)),
        decreases n - i,
    {
        let ghost prevmap = out@.map_values(|t: String| t@);
        let already = token_list_has(&out, tokens[i].as_str());
        proof {
            assert(tv[i as int] == tokens@[i as int]@);
        }
        if !already {
            out.push(tokens[i].clone());
            proof {
                assert(out@.map_values(|t: String| t@) =~= prevmap.push(tv[i as int]));
            }
        }
        proof {
            let cur = tv.subrange(0, i as int + 1);
            assert(cur.drop_last() =~= tv.subrange(0, i as int));
            assert(cur.last() == tv[i as int]);
        }
        i = i + 1;
    }
    proof {
        assert(tv.subrange(0, n as int) =~= tv);
    }
    out
}

/// `token_in` finds a token exactly when some position holds it.
pub proof fn lemma_token_in_exists(target: Seq<Seq<char>>, tok: Seq<char>, i: int)
    requires
        0 <= i <= target.len(),
    ensures
        token_in(target, tok, i) <==> (exists|k: int|
            i <= k < target.len() && target[k] == tok),
    decreases target.len() - i,
{
    if i < target.len() {
        lemma_token_in_exists(target, tok, i + 1);
        if token_in(target, tok, i) {
            if target[i] == tok {
                assert(i <= i < target.len() && target[i] == tok);
            } else {
                let k = choose|k: int| i + 1 <= k < target.len() && target[k] == tok;
                assert(i <= k < target.len() && target[k] == tok);
            }
        }
        if exists|k: int| i <= k < target.len() && target[k] == tok {
            let k = choose|k: int| i <= k < target.len() && target[k] == tok;
            if k != i {
                assert(i + 1 <= k < target.len() && target[k] == tok);
            }
        }
    }
}

/// Dropping repeats loses no token and invents none: the deduplicated
/// list holds exactly the tokens of the original — the same set.
pub proof fn lemma_dedup_keeps_members(s: Seq<Seq<char>>, tok: Seq<char>)
    ensures
        token_in(spec_dedup(s), tok, 0) == token_in(s, tok, 0),
    decreases s.len(),
{
    if s.len() > 0 {
        let dl = s.drop_last();
        let prev = spec_dedup(dl);
        lemma_dedup_keeps_members(dl, tok);
        lemma_dedup_keeps_members(dl, s.last());
        lemma_token_in_exists(prev, tok, 0);
        lemma_token_in_exists(prev, s.last(), 0);
        lemma_token_in_exists(prev.push(s.last()), tok, 0);
        lemma_token_in_exists(s, tok, 0);
        lemma_token_in_exists(dl, tok, 0);
        lemma_token_in_exists(dl, s.last(), 0);
        assert((exists|k: int| 0 <= k < s.len() && s[k] == tok) <==> ((exists|k: int|
            0 <= k < dl.len() && dl[k] == tok) || s.last() == tok)) by {
            if exists|k: int| 0 <= k < s.len() && s[k] == tok {
                let k = choose|k: int| 0 <= k < s.len() && s[k] == tok;
                if k < s.len() - 1 {
                    assert(dl[k] == tok);
                }
            }
            if exists|k: int| 0 <= k < dl.len() && dl[k] == tok {
                let k = choose|k: int| 0 <= k < dl.len() && dl[k] == tok;
                assert(s[k] == tok);
            }
            assert(s[s.len() - 1] == s.last());
        }
        if token_in(prev, s.last(), 0) {
        } else {
            assert((exists|k: int| 0 <= k < prev.push(s.last()).len() && prev.push(s.last())[k]
                == tok) <==> ((exists|k: int| 0 <= k < prev.len() && prev[k] == tok) || s.last()
                == tok)) by {
                if exists|k: int| 0 <= k < prev.push(s.last()).len() && prev.push(s.last())[k]
                    == tok {
                    let k = choose|k: int|
                        0 <= k < prev.push(s.last()).len() && prev.push(s.last())[k] == tok;
                    if k < prev.len() {
                        assert(prev[k] == tok);
                    }
                }
                if exists|k: int| 0 <= k < prev.len() && prev[k] == tok {
                    let k = choose|k: int| 0 <= k < prev.len() && prev[k] == tok;
                    assert(prev.push(s.last())[k] == tok);
                }
                assert(prev.push(s.last())[prev.len() as int] == s.last());
            }
        }
    }
}

/// The deduplicated list never holds a token twice.
pub proof fn lemma_dedup_distinct(s: Seq<Seq<char>>, i: int, j: int)
    requires
        0 <= i < j < spec_dedup(s).len(),
    ensures
        spec_dedup(s)[i] != spec_dedup(s)[j],
    decreases s.len(),
{
    if s.len() > 0 {
        let dl = s.drop_last();
        let prev = spec_dedup(dl);
        if token_in(prev, s.last(), 0) {
            lemma_dedup_distinct(dl, i, j);
        } else {
            if j < prev.len() {
                lemma_dedup_distinct(dl, i, j);
            } else {
                lemma_token_in_exists(prev, s.last(), 0);
                assert(spec_dedup(s)[i] == prev[i]);
                assert(spec_dedup(s)[j] == s.last());
                if prev[i] == s.last() {
                    assert(0 <= i < prev.len() && prev[i] == s.last());
                }
            }
        }
    }
}

/// How many query tokens stand in `target`.
fn count_overlap(query: &Vec<String>, target: &Vec<String>) -> (r: usize)
    ensures
        r as int == spec_overlap(
            query@.map_values(|t: String| t@),
            target@.map_values(|t: String| t@),
            0,
        ),
        r <= query@.len(),
{
    let ghost qv = query@.map_values(|t: String| t@);
    let ghost tv = target@.map_values(|t: String| t@);
    let n = query.len();
    let mut count: usize = 0;
    let mut i: usize = 0;
    while i < n
        invariant
            n == query@.len(),
            i <= n,
            count <= i,
            qv == query@.map_values(|t: String| t@),
            tv == target@.map_values(|t: String| t@),
            spec_overlap(qv, tv, 0) == count + spec_overlap(qv, tv, i as int),
        decreases n - i,
    {
        if token_list_has(target, query[i].as_str()) {
            count = count + 1;
        }
        i = i + 1;
    }
    proof {
        lemma_overlap_bound(qv, tv, n as int);
    }
    count
}

/// Whether two token lists are equal.
fn token_lists_eq(a: &Vec<String>, b: &Vec<String>) -> (r: bool)
    ensures
        r == (a@.map_values(|t: String| t@) == b@.map_values(|t: String| t@)),
{
    let ghost av = a@.map_values(|t: String| t@);
    let ghost bv = b@.map_values(|t: String| t@);
    let n = a.len();
    if b.len() != n {
        proof {
            assert(av.len() == a@.len());
            assert(bv.len() == b@.len());
        }
        return false;
    }
    let mut i: usize = 0;
    while i < n
        invariant
            n == a@.len(),
            n == b@.len(),
            i <= n,
            av == a@.map_values(|t: String| t@),
            bv == b@.map_values(|t: String| t@),
            forall|k: int| 0 <= k < i ==> av[k] == bv[k],
        decreases n - i,
    {
        if !str_eq(a[i].as_str(), b[i].as_str()) {
            proof {
                assert(av[i as int] == a@[i as int]@);
                assert(bv[i as int] == b@[i as int]@);
            }
            return false;
        }
        i = i + 1;
    }
    proof {
        assert(av =~= bv);
    }
    true
}

/// Normalizes a string into tokens.
fn norm(s: &str) -> (r: Vec<String>)
    ensures
        r@.map_values(|t: String| t@) == spec_norm(s@),
{
    let cleanedup = cleanup(s);
    tokenize(cleanedup.as_str())
}


/// Inserting before the first strictly greater score is what
/// [`spec_insert_hit`] does.
pub proof fn lemma_insert_hit_at(
    x: (Seq<char>, Seq<char>, int),
    s: Seq<(Seq<char>, Seq<char>, int)>,
    j: int,
)
    requires
        0 <= j <= s.len(),
        forall|k: int| 0 <= k < j ==> s[k].2 <= x.2,
        j < s.len() ==> s[j].2 > x.2,
    ensures
        spec_insert_hit(x, s) == s.subrange(0, j) + seq![x] + s.subrange(j, s.len() as int),
    decreases j,
{
    if j == 0 {
        if s.len() == 0 {
            assert(spec_insert_hit(x, s) =~= s.subrange(0, 0) + seq![x] + s.subrange(0, 0));
        } else {
            assert(x.2 < s[0].2);
            assert(seq![x] + s =~= s.subrange(0, 0) + seq![x] + s.subrange(0, s.len() as int));
        }
    } else {
        assert(s[0].2 <= x.2);
        let tail = s.drop_first();
        assert forall|k: int| 0 <= k < j - 1 implies tail[k].2 <= x.2 by {
            assert(tail[k] == s[k + 1]);
        }
        lemma_insert_hit_at(x, tail, j - 1);
        assert(seq![s[0]] + (tail.subrange(0, j - 1) + seq![x] + tail.subrange(
            j - 1,
            tail.len() as int,
        )) =~= s.subrange(0, j) + seq![x] + s.subrange(j, s.len() as int));
    }
}

/// Inserts a hit into an already sorted list, keeping equal scores in
/// their order.
fn insert_hit(sorted: &mut Vec<SearchHit>, x: SearchHit)
    ensures
        hits_view(final(sorted)@) == spec_insert_hit(hit_view(x), hits_view(old(sorted)@)),
{
    let ghost sv = hits_view(sorted@);
    let ghost xv = hit_view(x);
    let n = sorted.len();
    let mut j: usize = 0;
    while j < n && sorted[j].score <= x.score
        invariant
            n == sorted@.len(),
            j <= n,
            sv == hits_view(sorted@),
            xv == hit_view(x),
            forall|k: int| 0 <= k < j ==> sv[k].2 <= xv.2,
        decreases n - j,
    {
        proof {
            assert(sv[j as int] == hit_view(sorted@[j as int]));
        }
        j = j + 1;
    }
    proof {
        if j < n {
            assert(sv[j as int] == hit_view(sorted@[j as int]));
        }
        lemma_insert_hit_at(xv, sv, j as int);
    }
    sorted.insert(j, x);
    proof {
        assert(hits_view(sorted@) =~= sv.subrange(0, j as int) + seq![xv] + sv.subrange(
            j as int,
            sv.len() as int,
        ));
    }
}

/// Sorts hits ascending by score, stably.
fn sort_hits(hits: Vec<SearchHit>) -> (r: Vec<SearchHit>)
    ensures
        hits_view(r@) == spec_sort_hits(hits_view(hits@)),
{
    let ghost orig = hits@;
    let mut rest = hits;
    let mut out: Vec<SearchHit> = Vec::new();
    while rest.len() > 0
        invariant
            orig.len() >= rest@.len(),
            rest@ =~= orig.subrange(
                orig.len() - rest@.len(),
                orig.len() as int,
            ),
            hits_view(out@) == spec_sort_hits(
                hits_view(orig.subrange(0, orig.len() - rest@.len())),
            ),
        decreases rest@.len(),
    {
        let ghost k = orig.len() - rest@.len();
        let x = rest.remove(0);
        proof {
            assert(x == orig[k as int]);
            assert(rest@ =~= orig.subrange(k + 1, orig.len() as int));
        }
        insert_hit(&mut out, x);
        proof {
            let done = orig.subrange(0, k + 1);
            assert(done.drop_last() =~= orig.subrange(0, k as int));
            assert(done.last() == orig[k as int]);
            assert(hits_view(done).drop_last() =~= hits_view(done.drop_last()));
            assert(hits_view(done).last() == hit_view(orig[k as int]));
            assert(hits_view(out@) == spec_sort_hits(hits_view(done))) by {
                assert(spec_sort_hits(hits_view(done)) == spec_insert_hit(
                    hits_view(done).last(),
                    spec_sort_hits(hits_view(done).drop_last()),
                ));
            }
        }
    }
    proof {
        assert(orig.subrange(0, orig.len() as int) =~= orig);
    }
    out
}

/// Overlaps are counts, so the best overlap is never negative.
pub proof fn lemma_best_overlap_nonneg(query: Seq<Seq<char>>, items: Seq<Seq<char>>, i: int)
    ensures
        spec_best_overlap(query, items, i) >= 0,
    decreases items.len() - i,
{
    if 0 <= i < items.len() {
        lemma_best_overlap_nonneg(query, items, i + 1);
        lemma_overlap_bound(query, spec_norm(items[i]), 0);
    }
}

/// The best overlap never exceeds the query's token count.
pub proof fn lemma_best_overlap_le(query: Seq<Seq<char>>, items: Seq<Seq<char>>, i: int)
    ensures
        spec_best_overlap(query, items, i) <= query.len(),
    decreases items.len() - i,
{
    if 0 <= i < items.len() {
        lemma_best_overlap_le(query, items, i + 1);
        lemma_overlap_bound(query, spec_norm(items[i]), 0);
    }
}

/// The best overlap against the normalized tokens of each item, and
/// whether any item's tokens equal the query exactly.
fn best_and_exact(query: &Vec<String>, items: &Vec<String>) -> (r: (usize, bool))
    ensures
        r.0 as int == spec_best_overlap(
            query@.map_values(|t: String| t@),
            items@.map_values(|t: String| t@),
            0,
        ),
        r.0 <= query@.len(),
        r.1 == spec_any_exact(
            query@.map_values(|t: String| t@),
            items@.map_values(|t: String| t@),
            0,
        ),
{
    let ghost qv = query@.map_values(|t: String| t@);
    let ghost iv = items@.map_values(|t: String| t@);
    let n = items.len();
    let mut best: usize = 0;
    let mut exact = false;
    let mut i: usize = 0;
    proof {
        lemma_best_overlap_nonneg(qv, iv, 0);
    }
    while i < n
        invariant
            n == items@.len(),
            i <= n,
            best <= query@.len(),
            qv == query@.map_values(|t: String| t@),
            iv == items@.map_values(|t: String| t@),
            spec_best_overlap(qv, iv, 0) == imax(best as int, spec_best_overlap(qv, iv, i as int)),
            spec_any_exact(qv, iv, 0) == (exact || spec_any_exact(qv, iv, i as int)),
        decreases n - i,
    {
        let toks = norm(items[i].as_str());
        let c = count_overlap(query, &toks);
        proof {
            assert(iv[i as int] == items@[i as int]@);
        }
        if c > best {
            best = c;
        }
        if token_lists_eq(&toks, query) {
            exact = true;
        }
        i = i + 1;
        proof {
            lemma_best_overlap_nonneg(qv, iv, i as int);
            lemma_overlap_bound(qv, spec_norm(iv[i - 1]), 0);
        }
    }
    (best, exact)
}

/// A search's outcome: the page to navigate to directly when the query
/// matched a title exactly, and the ranked results.
pub struct SearchResults {
    /// The URL key of the last visible page whose title, URL key or alias
    /// title the query equals exactly, if any: the caller navigates there
    /// instead of listing results.
    pub exact: Option<String>,
    /// The visible pages with a positive score, sorted ascending by score.
    pub hits: Vec<SearchHit>,
}

/// The spec view of the exact-match field.
pub open spec fn opt_view(o: Option<String>) -> Option<Seq<char>> {
    match o {
        Some(s) => Some(s@),
        None => None,
    }
}

/// Scores a free-text query against every visible page of a continuity.
pub fn search(
    query: &str,
    pages: &Vec<Page>,
    observed: &ObservedSet,
    continuity_prefix: &str,
) -> (r: Result<SearchResults, SearchError>)
    ensures
        match r {
            Ok(out) => spec_search(query@, pages@, observed@, continuity_prefix@) == Ok::<
                _,
                SearchError,
            >((opt_view(out.exact), hits_view(out.hits@))),
            Err(e) => spec_search(query@, pages@, observed@, continuity_prefix@) == Err::<
                (Option<Seq<char>>, Seq<(Seq<char>, Seq<char>, int)>),
                SearchError,
            >(e),
        },
{
    let ghost obs = observed@;
    let ghost pfx = continuity_prefix@;
    let qn = norm(query);
    let ghost qv = qn@.map_values(|t: String| t@);
    proof {
        assert(qv.len() == qn@.len());
    }
    if qn.len() > MAX_QUERY_TOKENS {
        return Err(SearchError::QueryTooLong);
    }
    let n64 = qn.len() as u64;
    proof {
        assert(n64 <= 0x200000);
        assert(n64 as int * n64 as int <= 0x40000000000) by (nonlinear_arith)
            requires n64 as int <= 0x200000;
    }
    let wt = n64 * n64 + 1;
    let wc = n64 + 1;
    let mut exact: Option<String> = None;
    let mut hits: Vec<SearchHit> = Vec::new();
    let np = pages.len();
    let mut i: usize = 0;
    proof {
        match spec_scan(qv, pages@, obs, pfx, 0) {
            Ok(rest) => {
                assert(Seq::<(Seq<char>, Seq<char>, int)>::empty() + rest.1 =~= rest.1);
            },
            Err(_) => {},
        }
    }
    while i < np
        invariant
            np == pages@.len(),
            i <= np,
            obs == observed@,
            pfx == continuity_prefix@,
            qv == qn@.map_values(|t: String| t@),
            qv == spec_norm(query@),
            qv.len() <= MAX_QUERY_TOKENS,
            n64 as int == qv.len(),
            wt as int == n64 as int * n64 as int + 1,
            wc as int == n64 as int + 1,
            match spec_scan(qv, pages@, obs, pfx, i as int) {
                Ok(rest) => spec_scan(qv, pages@, obs, pfx, 0) == Ok::<
                    (Option<Seq<char>>, Seq<(Seq<char>, Seq<char>, int)>),
                    ConfigError,
                >(
                    (
                        if rest.0 is Some {
                            rest.0
                        } else {
                            opt_view(exact)
                        },
                        hits_view(hits@) + rest.1,
                    ),
                ),
                Err(e) => spec_scan(qv, pages@, obs, pfx, 0) == Err::<
                    (Option<Seq<char>>, Seq<(Seq<char>, Seq<char>, int)>),
                    ConfigError,
                >(e),
            },
        decreases np - i,
    {
        let ghost iold = i as int;
        let p = &pages[i];
        match p.should_show(observed, continuity_prefix) {
            Err(e) => {
                proof {
                    assert(spec_scan(qv, pages@, obs, pfx, iold) == Err::<
                        (Option<Seq<char>>, Seq<(Seq<char>, Seq<char>, int)>),
                        ConfigError,
                    >(e));
                }
                return Err(SearchError::Config(e));
            },
            Ok(false) => {
                i = i + 1;
            },
            Ok(true) => {
                let peers = match p.title_peers(observed, continuity_prefix) {
                    Err(e) => {
                        proof {
                            assert(spec_scan(qv, pages@, obs, pfx, iold) == Err::<
                                (Option<Seq<char>>, Seq<(Seq<char>, Seq<char>, int)>),
                                ConfigError,
                            >(e));
                        }
                        return Err(SearchError::Config(e));
                    },
                    Ok(v) => v,
                };
                let cats = match p.categories(observed, continuity_prefix) {
                    Err(e) => {
                        proof {
                            assert(spec_scan(qv, pages@, obs, pfx, iold) == Err::<
                                (Option<Seq<char>>, Seq<(Seq<char>, Seq<char>, int)>),
                                ConfigError,
                            >(e));
                        }
                        return Err(SearchError::Config(e));
                    },
                    Ok(v) => v,
                };
                let kws = match p.keywords(observed, continuity_prefix) {
                    Err(e) => {
                        proof {
                            assert(spec_scan(qv, pages@, obs, pfx, iold) == Err::<
                                (Option<Seq<char>>, Seq<(Seq<char>, Seq<char>, int)>),
                                ConfigError,
                            >(e));
                        }
                        return Err(SearchError::Config(e));
                    },
                    Ok(v) => v,
                };
                let dn = p.display_name();
                let title_tokens = norm(dn.as_str());
                let url_tokens = norm(p.page_url.as_str());
                let peer_result = best_and_exact(&qn, &peers);
                let cat_result = best_and_exact(&qn, &cats);
                let t_overlap = count_overlap(&qn, &title_tokens);
                let u_overlap = count_overlap(&qn, &url_tokens);
                let kw_count = count_overlap(&qn, &kws);
                let name_count = if t_overlap >= u_overlap {
                    t_overlap
                } else {
                    u_overlap
                };
                let title_count = if name_count >= peer_result.0 {
                    name_count
                } else {
                    peer_result.0
                };
                proof {
                    lemma_best_overlap_le(qv, peers@.map_values(|t: String| t@), 0);
                    lemma_best_overlap_le(qv, cats@.map_values(|t: String| t@), 0);
                    assert(t_overlap <= qn@.len());
                    assert(u_overlap <= qn@.len());
                    assert(peer_result.0 as int <= qv.len());
                    assert(cat_result.0 as int <= qv.len());
                    assert(title_count as int <= qv.len());
                    assert(title_count as int * (n64 as int * n64 as int + 1) <= 0xffffffffffffffff)
                        by (nonlinear_arith)
                        requires
                            title_count as int <= 0x200000,
                            0 <= n64 as int <= 0x200000,
                    ;
                    assert(cat_result.0 as int * (n64 as int + 1) <= 0xffffffffffffffff)
                        by (nonlinear_arith)
                        requires
                            cat_result.0 as int <= 0x200000,
                            0 <= n64 as int <= 0x200000,
                    ;
                }
                let score_t = title_count as u64 * wt;
                let score_c = cat_result.0 as u64 * wc;
                let score_k = kw_count as u64;
                let score = if score_t >= score_c && score_t >= score_k {
                    score_t
                } else if score_c >= score_k {
                    score_c
                } else {
                    score_k
                };
                let here_exact = token_lists_eq(&qn, &title_tokens) || token_lists_eq(
                    &qn,
                    &url_tokens,
                ) || peer_result.1;
                let ghost prev_exact = opt_view(exact);
                let ghost prev_hits = hits_view(hits@);
                if here_exact {
                    exact = Some(p.page_url.clone());
                }
                if score > 0 {
                    hits.push(
                        SearchHit { page_url: p.page_url.clone(), title: dn, score },
                    );
                }
                i = i + 1;
                proof {
                    let pv = pages@[iold];
                    assert(spec_page_score(
                        qv,
                        pv,
                        peers@.map_values(|t: String| t@),
                        cats@.map_values(|t: String| t@),
                        kws@.map_values(|t: String| t@),
                    ) == score as int);
                    assert(spec_page_exact(qv, pv, peers@.map_values(|t: String| t@))
                        == here_exact);
                    if score > 0 {
                        assert(hits_view(hits@) =~= prev_hits.push(
                            (pv.page_url@, spec_page_display_name(pv), score as int),
                        ));
                        assert(prev_hits.push(
                            (pv.page_url@, spec_page_display_name(pv), score as int),
                        ) =~= prev_hits + seq![
                            (pv.page_url@, spec_page_display_name(pv), score as int),
                        ]);
                    }
                    match spec_scan(qv, pages@, obs, pfx, i as int) {
                        Ok(rest) => {
                            assert((prev_hits + seq![
                                (pv.page_url@, spec_page_display_name(pv), score as int),
                            ]) + rest.1 =~= prev_hits + (seq![
                                (pv.page_url@, spec_page_display_name(pv), score as int),
                            ] + rest.1));
                            assert(prev_hits + (Seq::<(Seq<char>, Seq<char>, int)>::empty()
                                + rest.1) =~= prev_hits + rest.1);
                        },
                        Err(_) => {},
                    }
                }
            },
        }
    }
    proof {
        match spec_scan(qv, pages@, obs, pfx, np as int) {
            Ok(rest) => {
                assert(rest.1 =~= Seq::<(Seq<char>, Seq<char>, int)>::empty());
                assert(hits_view(hits@) + rest.1 =~= hits_view(hits@));
            },
            Err(_) => {
                assert(false);
            },
        }
    }
    let sorted = sort_hits(hits);
    Ok(SearchResults { exact, hits: sorted })
}

} // verus!
