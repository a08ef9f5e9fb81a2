use vstd::prelude::*;
use crate::matcher::config::{MatchConfig, SCORE_SCALE};
use crate::matcher::error::MatchError;
use crate::matcher::order::{
    lemma_slug_lt_asymmetric,
    lemma_slug_lt_total,
    lemma_slug_lt_transitive,
    lemma_sorted_slugs_unique,
    slug_less,
    slug_lt,
    sorted_slug_list,
    sorted_slugs,
    texts_of,
};
use crate::matcher::normalize::{
    chars_of,
    is_blank,
    lower_of,
    normalize_text,
    normalized_text,
    normalized_words,
    normalizes,
    string_from_chars,
    to_lowercase,
};
use crate::registry::types::{Category, Registry, distinct_slugs, slugs_of};

verus! {

/// The Levenshtein distance between `a` and `b`, as `strsim::levenshtein`
/// computes it.
pub uninterp spec fn levenshtein_of(a: Seq<char>, b: Seq<char>) -> nat;

/// The larger of two integers.
pub open spec fn max_int(a: int, b: int) -> int {
    if a >= b {
        a
    } else {
        b
    }
}

/// Edit-distance similarity of `a` and `b` in millionths:
/// `1 - distance / longer length`, rounded down; two empty texts are alike.
pub open spec fn similarity(a: Seq<char>, b: Seq<char>) -> int {
    let l = if a.len() >= b.len() {
        a.len()
    } else {
        b.len()
    };
    if l == 0 {
        SCORE_SCALE as int
    } else {
        (SCORE_SCALE * (l - levenshtein_of(a, b))) / (l as int)
    }
}

/// `s` with each hyphen turned into a space.
pub open spec fn hyphens_to_spaces(s: Seq<char>) -> Seq<char> {
    s.map_values(
        |c: char|
            if c == '-' {
                ' '
            } else {
                c
            },
    )
}

/// The query patterns of a category.
pub open spec fn patterns_of(cat: Category) -> Seq<Seq<char>> {
    cat.query_patterns@.map_values(|p: String| p@)
}

/// Best similarity of `q` with the normalized patterns among `pats`, skipping
/// those that do not normalize; 0 when there is none.
pub open spec fn patterns_best(q: Seq<char>, pats: Seq<Seq<char>>) -> int
    decreases pats.len(),
{
    if pats.len() == 0 {
        0
    } else {
        let rest = patterns_best(q, pats.drop_last());
        let p = pats.last();
        if normalizes(p) {
            max_int(rest, similarity(q, normalized_text(p)))
        } else {
            rest
        }
    }
}

/// The fuzzy signal: the best similarity of `q` with the slug read as words,
/// the lowercased display name, and each normalized pattern.
pub open spec fn fuzzy_score(q: Seq<char>, slug: Seq<char>, cat: Category) -> int {
    max_int(
        max_int(
            max_int(0, similarity(q, hyphens_to_spaces(slug))),
            similarity(q, lower_of(cat.name@)),
        ),
        patterns_best(q, patterns_of(cat)),
    )
}

/// The complete terms of `s` split on hyphens, and the term still open at its end.
pub open spec fn scan_terms(s: Seq<char>) -> (Seq<Seq<char>>, Seq<char>)
    decreases s.len(),
{
    if s.len() == 0 {
        (Seq::empty(), Seq::empty())
    } else {
        let (done, cur) = scan_terms(s.drop_last());
        let c = s.last();
        if c == '-' {
            (done.push(cur), Seq::empty())
        } else {
            (done, cur.push(c))
        }
    }
}

/// The pieces of `s` between hyphens (one more than there are hyphens).
pub open spec fn slug_terms(s: Seq<char>) -> Seq<Seq<char>> {
    let (done, cur) = scan_terms(s);
    done.push(cur)
}

/// `needle` stands somewhere in `hay` as a contiguous piece.
pub open spec fn occurs_in(needle: Seq<char>, hay: Seq<char>) -> bool {
    exists|i: int|
        0 <= i && i + needle.len() <= hay.len() && #[trigger] hay.subrange(i, i + needle.len())
            == needle
}

/// How many of `terms` occur in `q`.
pub open spec fn count_occurring(q: Seq<char>, terms: Seq<Seq<char>>) -> nat
    decreases terms.len(),
{
    if terms.len() == 0 {
        0
    } else {
        count_occurring(q, terms.drop_last()) + if occurs_in(terms.last(), q) {
            1nat
        } else {
            0nat
        }
    }
}

/// The keyword signal in millionths: the share of the slug's terms that occur
/// in `q`, rounded down.
pub open spec fn keyword_score(q: Seq<char>, slug: Seq<char>) -> int {
    (SCORE_SCALE * count_occurring(q, slug_terms(slug))) / (slug_terms(slug).len() as int)
}

/// The weighted sum of the two signals in millionths, rounded down and capped
/// at one whole.
pub open spec fn combined_score(fuzzy: int, keyword: int, cfg: MatchConfig) -> int {
    let raw = (cfg.match_fuzzy_weight * fuzzy + cfg.match_keyword_weight * keyword) / (
    SCORE_SCALE as int);
    if raw > SCORE_SCALE {
        SCORE_SCALE as int
    } else {
        raw
    }
}

/// The score of the category `cat` under `slug` for the normalized query `q`.
#[verifier::opaque]
pub open spec fn score(q: Seq<char>, slug: Seq<char>, cat: Category, cfg: MatchConfig) -> int {
    combined_score(fuzzy_score(q, slug, cat), keyword_score(q, slug), cfg)
}

/// Relies on `strsim::levenshtein`: the least number of one-character
/// insertions, deletions and substitutions that turn `a` into `b`, which is
/// never more than the longer length.
#[verifier::external_body]
fn levenshtein(a: &str, b: &str) -> (r: usize)
    ensures
        r == levenshtein_of(a@, b@),
        r <= a@.len() || r <= b@.len(),
{
    strsim::levenshtein(a, b)
}

/// Edit-distance similarity of `a` and `b` in millionths.
pub fn normalized_similarity(a: &str, b: &str) -> (r: u32)
    ensures
        r == similarity(a@, b@),
        r <= SCORE_SCALE,
{
    let la = a.unicode_len();
    let lb = b.unicode_len();
    let l = if la >= lb {
        la
    } else {
        lb
    };
    if l == 0 {
        return SCORE_SCALE;
    }
    let d = levenshtein(a, b);
    let same = (l - d) as u128;
    let num = SCORE_SCALE as u128 * same;
    let r = num / (l as u128);
    assert(r <= SCORE_SCALE) by (nonlinear_arith)
        requires
            r == num / (l as u128),
            num == SCORE_SCALE * same,
            same <= l,
            l > 0,
    {
        assert(SCORE_SCALE * same <= SCORE_SCALE * l);
    }
    r as u32
}

/// `s` with each hyphen turned into a space.
fn replace_hyphens(s: &str) -> (r: String)
    ensures
        r@ == hyphens_to_spaces(s@),
{
    let chars = chars_of(s);
    let mut out: Vec<char> = Vec::new();
    let mut i: usize = 0;
    while i < chars.len()
        invariant
            i <= chars@.len(),
            chars@ == s@,
            out@ == hyphens_to_spaces(s@).take(i as int),
        decreases chars.len() - i,
    {
        let c = chars[i];
        if c == '-' {
            out.push(' ');
        } else {
            out.push(c);
        }
        i = i + 1;
        assert(out@ =~= hyphens_to_spaces(s@).take(i as int));
    }
    assert(hyphens_to_spaces(s@).take(s@.len() as int) =~= hyphens_to_spaces(s@));
    string_from_chars(&out)
}

/// The fuzzy signal of a category for the normalized query.
pub fn calculate_fuzzy_score(query: &str, slug: &str, category: &Category) -> (r: u32)
    ensures
        r == fuzzy_score(query@, slug@, *category),
        r <= SCORE_SCALE,
{
    let mut best: u32 = 0;
    let slug_as_text = replace_hyphens(slug);
    let s = normalized_similarity(query, slug_as_text.as_str());
    if s > best {
        best = s;
    }
    let name_lower = to_lowercase(category.name.as_str());
    let s = normalized_similarity(query, name_lower.as_str());
    if s > best {
        best = s;
    }
    let ghost pats = patterns_of(*category);
    let mut from_patterns: u32 = 0;
    let mut i: usize = 0;
    while i < category.query_patterns.len()
        invariant
            i <= category.query_patterns@.len(),
            pats == patterns_of(*category),
            from_patterns == patterns_best(query@, pats.take(i as int)),
            from_patterns <= SCORE_SCALE,
        decreases category.query_patterns.len() - i,
    {
        proof {
            assert(pats.take(i + 1).drop_last() =~= pats.take(i as int));
            assert(pats.take(i + 1).last() == category.query_patterns@[i as int]@);
        }
        match normalize_text(category.query_patterns[i].as_str()) {
            Ok(pattern) => {
                let s = normalized_similarity(query, pattern.as_str());
                if s > from_patterns {
                    from_patterns = s;
                }
            },
            Err(_) => {},
        }
        i = i + 1;
    }
    assert(pats.take(pats.len() as int) =~= pats);
    if from_patterns > best {
        best = from_patterns;
    }
    best
}

/// The terms of `s` between hyphens.
fn split_on_hyphens(s: &Vec<char>) -> (r: Vec<Vec<char>>)
    ensures
        r@.map_values(|t: Vec<char>| t@) == slug_terms(s@),
{
    let mut done: Vec<Vec<char>> = Vec::new();
    let mut cur: Vec<char> = Vec::new();
    let mut i: usize = 0;
    while i < s.len()
        invariant
            i <= s@.len(),
            (done@.map_values(|t: Vec<char>| t@), cur@) == scan_terms(s@.take(i as int)),
        decreases s.len() - i,
    {
        let c = s[i];
        proof {
            assert(s@.take(i + 1).drop_last() =~= s@.take(i as int));
        }
        if c == '-' {
            let ghost old_done = done@;
            done.push(cur);
            cur = Vec::new();
            proof {
                assert(done@.map_values(|t: Vec<char>| t@) =~= old_done.map_values(
                    |t: Vec<char>| t@,
                ).push(done@[done@.len() - 1]@));
            }
        } else {
            cur.push(c);
        }
        i = i + 1;
    }
    assert(s@.take(s@.len() as int) =~= s@);
    let ghost old_done = done@;
    done.push(cur);
    proof {
        assert(done@.map_values(|t: Vec<char>| t@) =~= old_done.map_values(|t: Vec<char>| t@).push(
            done@[done@.len() - 1]@,
        ));
    }
    done
}

/// Whether `needle` stands in `hay` from position `at`.
fn occurs_at(needle: &Vec<char>, hay: &Vec<char>, at: usize) -> (r: bool)
    requires
        at + needle@.len() <= hay@.len(),
    ensures
        r == (hay@.subrange(at as int, at + needle@.len()) == needle@),
{
    let n = hay.len();
    let mut j: usize = 0;
    while j < needle.len()
        invariant
            n == hay@.len(),
            at + needle@.len() <= hay@.len(),
            j <= needle@.len(),
            forall|k: int| 0 <= k < j ==> hay@[at + k] == needle@[k],
        decreases needle.len() - j,
    {
        assert(at + j < n);
        if hay[at + j] != needle[j] {
            assert(hay@.subrange(at as int, at + needle@.len())[j as int] != needle@[j as int]);
            return false;
        }
        j = j + 1;
    }
    assert(hay@.subrange(at as int, at + needle@.len()) =~= needle@);
    true
}

/// Whether `needle` stands somewhere in `hay`.
fn occurs(needle: &Vec<char>, hay: &Vec<char>) -> (r: bool)
    ensures
        r == occurs_in(needle@, hay@),
{
    if needle.len() > hay.len() {
        return false;
    }
    let last = hay.len() - needle.len();
    let mut i: usize = 0;
    while i <= last
        invariant
            last + needle@.len() == hay@.len(),
            forall|k: int|
                0 <= k < i ==> #[trigger] hay@.subrange(k, k + needle@.len()) != needle@,
        decreases last + 1 - i,
    {
        if occurs_at(needle, hay, i) {
            return true;
        }
        if i == last {
            return false;
        }
        i = i + 1;
    }
    false
}

/// The keyword signal: the share of the slug's terms that occur in the query.
pub fn calculate_keyword_score(query: &str, slug: &str) -> (r: u32)
    ensures
        r == keyword_score(query@, slug@),
        r <= SCORE_SCALE,
{
    let q = chars_of(query);
    let slug_chars = chars_of(slug);
    let terms = split_on_hyphens(&slug_chars);
    let ghost tv = terms@.map_values(|t: Vec<char>| t@);
    let mut found: usize = 0;
    let mut i: usize = 0;
    while i < terms.len()
        invariant
            i <= terms@.len(),
            q@ == query@,
            tv == terms@.map_values(|t: Vec<char>| t@),
            found == count_occurring(q@, tv.take(i as int)),
            found <= i,
        decreases terms.len() - i,
    {
        proof {
            assert(tv.take(i + 1).drop_last() =~= tv.take(i as int));
            assert(tv.take(i + 1).last() == terms@[i as int]@);
        }
        if occurs(&terms[i], &q) {
            found = found + 1;
        }
        i = i + 1;
    }
    assert(tv.take(tv.len() as int) =~= tv);
    let n = terms.len();
    let num = SCORE_SCALE as u128 * found as u128;
    let r = num / (n as u128);
    assert(r <= SCORE_SCALE) by (nonlinear_arith)
        requires
            r == num / (n as u128),
            num == SCORE_SCALE * found,
            found <= n,
            n > 0,
    {
        assert(SCORE_SCALE * found <= SCORE_SCALE * n);
    }
    r as u32
}

/// The score of a category for the normalized query: the weighted sum of the
/// two signals, capped at one whole.
pub fn calculate_score(query: &str, slug: &str, category: &Category, config: &MatchConfig) -> (r:
    u32)
    ensures
        r == score(query@, slug@, *category, *config),
        r <= SCORE_SCALE,
{
    let fuzzy = calculate_fuzzy_score(query, slug, category);
    let keyword = calculate_keyword_score(query, slug);
    let fw = config.match_fuzzy_weight as u64;
    let kw = config.match_keyword_weight as u64;
    assert(fw * fuzzy <= 0xffff_ffffu64 * 1_000_000u64) by (nonlinear_arith)
        requires
            fuzzy <= 1_000_000,
            fw <= 0xffff_ffffu64,
    ;
    assert(kw * keyword <= 0xffff_ffffu64 * 1_000_000u64) by (nonlinear_arith)
        requires
            keyword <= 1_000_000,
            kw <= 0xffff_ffffu64,
    ;
    let a = fw * fuzzy as u64;
    let b = kw * keyword as u64;
    let raw = (a + b) / (SCORE_SCALE as u64);
    proof {
        reveal(score);
    }
    if raw > SCORE_SCALE as u64 {
        SCORE_SCALE
    } else {
        raw as u32
    }
}

/// The score of the catalog entry `e` for the normalized query `q`.
pub open spec fn entry_score(q: Seq<char>, e: (String, Category), cfg: MatchConfig) -> int {
    score(q, e.0@, e.1, cfg)
}

/// `a` wins over `b`: a higher score, or the same score and an earlier slug.
pub open spec fn ranks_before(
    q: Seq<char>,
    a: (String, Category),
    b: (String, Category),
    cfg: MatchConfig,
) -> bool {
    entry_score(q, a, cfg) > entry_score(q, b, cfg) || (entry_score(q, a, cfg) == entry_score(
        q,
        b,
        cfg,
    ) && slug_lt(a.0@, b.0@))
}

/// Position of the winning entry of `cats`: the first, then each later one
/// that ranks before the winner so far.
#[verifier::opaque]
pub open spec fn best_index(q: Seq<char>, cats: Seq<(String, Category)>, cfg: MatchConfig) -> int
    decreases cats.len(),
{
    if cats.len() <= 1 {
        0
    } else {
        let b = best_index(q, cats.drop_last(), cfg);
        if ranks_before(q, cats.last(), cats[b], cfg) {
            cats.len() - 1
        } else {
            b
        }
    }
}

/// The winner is a position of the list.
pub proof fn lemma_best_index_in_range(
    q: Seq<char>,
    cats: Seq<(String, Category)>,
    cfg: MatchConfig,
)
    requires
        cats.len() > 0,
    ensures
        0 <= best_index(q, cats, cfg) < cats.len(),
    decreases cats.len(),
{
    reveal(best_index);
    if cats.len() > 1 {
        lemma_best_index_in_range(q, cats.drop_last(), cfg);
    }
}

/// One more entry: the winner changes exactly when the new entry ranks
/// before the winner so far.
proof fn lemma_best_index_step(q: Seq<char>, cats: Seq<(String, Category)>, i: int, cfg: MatchConfig)
    requires
        1 <= i < cats.len(),
    ensures
        0 <= best_index(q, cats.take(i), cfg) < i,
        best_index(q, cats.take(i + 1), cfg) == if ranks_before(
            q,
            cats[i],
            cats[best_index(q, cats.take(i), cfg)],
            cfg,
        ) {
            i
        } else {
            best_index(q, cats.take(i), cfg)
        },
{
    reveal(best_index);
    let pre = cats.take(i + 1);
    assert(pre.drop_last() =~= cats.take(i));
    lemma_best_index_in_range(q, cats.take(i), cfg);
    let b = best_index(q, cats.take(i), cfg);
    assert(pre[b] == cats[b]);
}

/// A successful match: the winning slug, its score in millionths, and a copy
/// of its category.
#[derive(Debug, Clone)]
pub struct MatchResult {
    pub slug: String,
    pub score: u32,
    pub category: Category,
}

/// `r` is what matching the normalized query `q` against `cats` under `cfg`
/// returns: the winner when its score reaches the threshold, else the
/// rejection with the winner as the closest and all slugs in order.
pub open spec fn match_outcome(
    r: Result<MatchResult, MatchError>,
    q: Seq<char>,
    cats: Seq<(String, Category)>,
    cfg: MatchConfig,
) -> bool {
    let b = best_index(q, cats, cfg);
    let s = entry_score(q, cats[b], cfg);
    if s >= cfg.match_threshold {
        r matches Ok(m) && m.slug@ == cats[b].0@ && m.score == s && m.category.same_as(cats[b].1)
    } else {
        r matches Err(
            MatchError::BelowThreshold { threshold, closest_slug, closest_score, all_slugs },
        ) && threshold == cfg.match_threshold && closest_slug@ == cats[b].0@ && closest_score == s
            && sorted_slugs(texts_of(all_slugs@), slugs_of(cats))
    }
}

/// Whether a score `sa` under slug `a` wins over a score `sb` under slug `b`.
fn wins_over(sa: u32, a: &str, sb: u32, b: &str) -> (r: bool)
    ensures
        r == (sa > sb || (sa == sb && slug_lt(a@, b@))),
{
    sa > sb || (sa == sb && slug_less(a, b))
}

/// Matches `query` against the catalog: normalize it, score every category,
/// pick the best (higher score first, then the earlier slug), and accept it
/// when its score reaches the threshold.
///
/// A query that does not normalize is rejected as `EmptyQuery` or
/// `QueryAllStopWords` before any scoring.
pub fn match_query(query: &str, registry: &Registry, config: &MatchConfig) -> (r: Result<
    MatchResult,
    MatchError,
>)
    requires
        registry.wf(),
    ensures
        is_blank(query@) ==> r matches Err(MatchError::EmptyQuery),
        (!is_blank(query@) && normalized_words(query@).len() == 0) ==> r matches Err(
            MatchError::QueryAllStopWords,
        ),
        normalizes(query@) ==> match_outcome(
            r,
            normalized_text(query@),
            registry.categories@,
            *config,
        ),
{
    let normalized = match normalize_text(query) {
        Ok(s) => s,
        Err(e) => {
            return Err(e);
        },
    };
    let q = normalized.as_str();
    let cats = &registry.categories;
    let mut best: usize = 0;
    let mut best_score = calculate_score(q, cats[0].0.as_str(), &cats[0].1, config);
    let mut i: usize = 1;
    proof {
        reveal(best_index);
    }
    while i < cats.len()
        invariant
            1 <= i <= cats@.len(),
            q@ == normalized_text(query@),
            best < i,
            best == best_index(q@, cats@.take(i as int), *config),
            best_score == entry_score(q@, cats@[best as int], *config),
        decreases cats.len() - i,
    {
        let s = calculate_score(q, cats[i].0.as_str(), &cats[i].1, config);
        proof {
            lemma_best_index_step(q@, cats@, i as int, *config);
        }
        if wins_over(s, cats[i].0.as_str(), best_score, cats[best].0.as_str()) {
            best = i;
            best_score = s;
        }
        i = i + 1;
    }
    assert(cats@.take(cats@.len() as int) =~= cats@);
    if best_score >= config.match_threshold {
        Ok(
            MatchResult {
                slug: cats[best].0.clone(),
                score: best_score,
                category: cats[best].1.duplicate(),
            },
        )
    } else {
        Err(
            MatchError::BelowThreshold {
                threshold: config.match_threshold,
                closest_slug: cats[best].0.clone(),
                closest_score: best_score,
                all_slugs: sorted_slug_list(cats),
            },
        )
    }
}

/// Every similarity lies in [0, 1].
proof fn lemma_similarity_in_unit_range(a: Seq<char>, b: Seq<char>)
    ensures
        similarity(a, b) <= SCORE_SCALE,
{
    let l: int = if a.len() >= b.len() {
        a.len() as int
    } else {
        b.len() as int
    };
    if l > 0 {
        let d = levenshtein_of(a, b) as int;
        assert((SCORE_SCALE * (l - d)) / l <= SCORE_SCALE) by (nonlinear_arith)
            requires
                l > 0,
                d >= 0,
        {
            assert(SCORE_SCALE * (l - d) <= SCORE_SCALE * l);
        }
    }
}

/// The best pattern similarity lies in [0, 1].
proof fn lemma_patterns_best_in_unit_range(q: Seq<char>, pats: Seq<Seq<char>>)
    ensures
        0 <= patterns_best(q, pats) <= SCORE_SCALE,
    decreases pats.len(),
{
    if pats.len() > 0 {
        lemma_patterns_best_in_unit_range(q, pats.drop_last());
        if normalizes(pats.last()) {
            lemma_similarity_in_unit_range(q, normalized_text(pats.last()));
        }
    }
}

/// The fuzzy signal lies in [0, 1].
pub proof fn lemma_fuzzy_in_unit_range(q: Seq<char>, slug: Seq<char>, cat: Category)
    ensures
        0 <= fuzzy_score(q, slug, cat) <= SCORE_SCALE,
{
    lemma_similarity_in_unit_range(q, hyphens_to_spaces(slug));
    lemma_similarity_in_unit_range(q, lower_of(cat.name@));
    lemma_patterns_best_in_unit_range(q, patterns_of(cat));
}

/// The split of a slug holds at least one term.
proof fn lemma_slug_terms_nonempty(s: Seq<char>)
    ensures
        slug_terms(s).len() >= 1,
{
}

/// No more terms occur than there are.
proof fn lemma_count_occurring_bounded(q: Seq<char>, terms: Seq<Seq<char>>)
    ensures
        count_occurring(q, terms) <= terms.len(),
    decreases terms.len(),
{
    if terms.len() > 0 {
        lemma_count_occurring_bounded(q, terms.drop_last());
    }
}

/// When every term occurs, all are counted.
proof fn lemma_count_occurring_all(q: Seq<char>, terms: Seq<Seq<char>>)
    requires
        forall|i: int| 0 <= i < terms.len() ==> occurs_in(#[trigger] terms[i], q),
    ensures
        count_occurring(q, terms) == terms.len(),
    decreases terms.len(),
{
    if terms.len() > 0 {
        let rest = terms.drop_last();
        assert forall|i: int| 0 <= i < rest.len() implies occurs_in(#[trigger] rest[i], q) by {
            assert(rest[i] == terms[i]);
        }
        lemma_count_occurring_all(q, rest);
        assert(occurs_in(terms[terms.len() - 1], q));
    }
}

/// The keyword signal lies in [0, 1].
pub proof fn lemma_keyword_in_unit_range(q: Seq<char>, slug: Seq<char>)
    ensures
        0 <= keyword_score(q, slug) <= SCORE_SCALE,
{
    let n = slug_terms(slug).len() as int;
    let c = count_occurring(q, slug_terms(slug)) as int;
    lemma_slug_terms_nonempty(slug);
    lemma_count_occurring_bounded(q, slug_terms(slug));
    assert(0 <= (SCORE_SCALE * c) / n <= SCORE_SCALE) by (nonlinear_arith)
        requires
            n >= 1,
            0 <= c <= n,
    {
        assert(SCORE_SCALE * c <= SCORE_SCALE * n);
    }
}

/// Every score lies in [0, 1], whatever the query, category and weights.
pub proof fn lemma_score_in_unit_range(
    q: Seq<char>,
    slug: Seq<char>,
    cat: Category,
    cfg: MatchConfig,
)
    ensures
        0 <= score(q, slug, cat, cfg) <= SCORE_SCALE,
{
    reveal(score);
    let f = fuzzy_score(q, slug, cat);
    let k = keyword_score(q, slug);
    lemma_fuzzy_in_unit_range(q, slug, cat);
    lemma_keyword_in_unit_range(q, slug);
    let fw = cfg.match_fuzzy_weight as int;
    let kw = cfg.match_keyword_weight as int;
    assert(0 <= (fw * f + kw * k) / (SCORE_SCALE as int)) by (nonlinear_arith)
        requires
            fw >= 0,
            kw >= 0,
            f >= 0,
            k >= 0,
    ;
}

/// For a query that normalizes, matching against a well-formed catalog
/// scores every category in [0, 1] and ends in success or `BelowThreshold`,
/// never in `EmptyQuery` or `QueryAllStopWords`.
pub proof fn lemma_normalizable_query_is_scored(
    query: Seq<char>,
    registry: Registry,
    cfg: MatchConfig,
    r: Result<MatchResult, MatchError>,
)
    requires
        registry.wf(),
        normalizes(query),
        match_outcome(r, normalized_text(query), registry.categories@, cfg),
    ensures
        forall|i: int|
            0 <= i < registry.categories@.len() ==> 0 <= #[trigger] entry_score(
                normalized_text(query),
                registry.categories@[i],
                cfg,
            ) <= SCORE_SCALE,
        r is Ok || r matches Err(MatchError::BelowThreshold { .. }),
{
    let q = normalized_text(query);
    assert forall|i: int| 0 <= i < registry.categories@.len() implies 0 <= #[trigger] entry_score(
        q,
        registry.categories@[i],
        cfg,
    ) <= SCORE_SCALE by {
        let e = registry.categories@[i];
        lemma_score_in_unit_range(q, e.0@, e.1, cfg);
    }
}

/// Moving weight from the fuzzy signal to the keyword signal (the weights
/// summing to one whole) never lowers the score of a category whose slug
/// terms all occur in the query.
pub proof fn lemma_keyword_weight_monotone(
    q: Seq<char>,
    slug: Seq<char>,
    cat: Category,
    less: MatchConfig,
    more: MatchConfig,
)
    requires
        forall|i: int|
            0 <= i < slug_terms(slug).len() ==> occurs_in(#[trigger] slug_terms(slug)[i], q),
        less.match_fuzzy_weight + less.match_keyword_weight == SCORE_SCALE,
        more.match_fuzzy_weight + more.match_keyword_weight == SCORE_SCALE,
        less.match_keyword_weight <= more.match_keyword_weight,
    ensures
        score(q, slug, cat, less) <= score(q, slug, cat, more),
{
    reveal(score);
    let f = fuzzy_score(q, slug, cat);
    lemma_fuzzy_in_unit_range(q, slug, cat);
    lemma_slug_terms_nonempty(slug);
    lemma_count_occurring_all(q, slug_terms(slug));
    let n = slug_terms(slug).len() as int;
    assert((SCORE_SCALE * n) / n == SCORE_SCALE) by (nonlinear_arith)
        requires
            n >= 1,
    ;
    assert(keyword_score(q, slug) == SCORE_SCALE);
    let s = SCORE_SCALE as int;
    let ka = less.match_keyword_weight as int;
    let kb = more.match_keyword_weight as int;
    assert(((s - ka) * f + ka * s) / s <= ((s - kb) * f + kb * s) / s) by (nonlinear_arith)
        requires
            s > 0,
            0 <= f <= s,
            0 <= ka <= kb,
    {
        assert((s - kb) * f + kb * s - ((s - ka) * f + ka * s) == (kb - ka) * (s - f));
        assert((kb - ka) * (s - f) >= 0);
        vstd::arithmetic::div_mod::lemma_div_is_ordered(
            (s - ka) * f + ka * s,
            (s - kb) * f + kb * s,
            s,
        );
    }
}

/// Entry `b` of `cats` ranks before every other entry.
pub open spec fn ranks_first(
    q: Seq<char>,
    cats: Seq<(String, Category)>,
    b: int,
    cfg: MatchConfig,
) -> bool {
    forall|j: int|
        0 <= j < cats.len() && j != b ==> ranks_before(q, cats[b], #[trigger] cats[j], cfg)
}

/// Ranking before is transitive.
proof fn lemma_ranks_before_transitive(
    q: Seq<char>,
    a: (String, Category),
    b: (String, Category),
    c: (String, Category),
    cfg: MatchConfig,
)
    requires
        ranks_before(q, a, b, cfg),
        ranks_before(q, b, c, cfg),
    ensures
        ranks_before(q, a, c, cfg),
{
    if entry_score(q, a, cfg) == entry_score(q, b, cfg) && entry_score(q, b, cfg) == entry_score(
        q,
        c,
        cfg,
    ) {
        lemma_slug_lt_transitive(a.0@, b.0@, c.0@);
    }
}

/// Of two entries, at most one ranks before the other.
proof fn lemma_ranks_before_asymmetric(
    q: Seq<char>,
    a: (String, Category),
    b: (String, Category),
    cfg: MatchConfig,
)
    requires
        ranks_before(q, a, b, cfg),
    ensures
        !ranks_before(q, b, a, cfg),
{
    if entry_score(q, a, cfg) == entry_score(q, b, cfg) {
        lemma_slug_lt_asymmetric(a.0@, b.0@);
    }
}

/// With all slugs different, the winner ranks before every other entry.
pub proof fn lemma_winner_ranks_first(q: Seq<char>, cats: Seq<(String, Category)>, cfg: MatchConfig)
    requires
        cats.len() > 0,
        distinct_slugs(cats),
    ensures
        ranks_first(q, cats, best_index(q, cats, cfg), cfg),
    decreases cats.len(),
{
    reveal(best_index);
    if cats.len() > 1 {
        let pre = cats.drop_last();
        assert forall|i: int, j: int|
            0 <= i < pre.len() && 0 <= j < pre.len() && i != j implies #[trigger] pre[i].0@
            != #[trigger] pre[j].0@ by {
            assert(pre[i] == cats[i] && pre[j] == cats[j]);
        }
        lemma_winner_ranks_first(q, pre, cfg);
        lemma_best_index_in_range(q, pre, cfg);
        let b0 = best_index(q, pre, cfg);
        let last = cats.len() - 1;
        assert(pre[b0] == cats[b0]);
        if ranks_before(q, cats[last], cats[b0], cfg) {
            assert forall|j: int| 0 <= j < cats.len() && j != last implies ranks_before(
                q,
                cats[last],
                #[trigger] cats[j],
                cfg,
            ) by {
                if j != b0 {
                    assert(pre[j] == cats[j]);
                    lemma_ranks_before_transitive(q, cats[last], cats[b0], cats[j], cfg);
                }
            }
        } else {
            assert(cats[last].0@ != cats[b0].0@);
            if entry_score(q, cats[last], cfg) == entry_score(q, cats[b0], cfg) {
                lemma_slug_lt_total(cats[last].0@, cats[b0].0@);
            }
            assert forall|j: int| 0 <= j < cats.len() && j != b0 implies ranks_before(
                q,
                cats[b0],
                #[trigger] cats[j],
                cfg,
            ) by {
                if j != last {
                    assert(pre[j] == cats[j]);
                }
            }
        }
    }
}

/// The tie-break makes the winner independent of the catalog's order: two
/// listings of the same entries, with all slugs different, pick the same entry.
pub proof fn lemma_winner_independent_of_order(
    q: Seq<char>,
    cats1: Seq<(String, Category)>,
    cats2: Seq<(String, Category)>,
    cfg: MatchConfig,
)
    requires
        cats1.len() > 0,
        distinct_slugs(cats1),
        distinct_slugs(cats2),
        forall|e: (String, Category)| cats1.contains(e) <==> cats2.contains(e),
    ensures
        cats1[best_index(q, cats1, cfg)] == cats2[best_index(q, cats2, cfg)],
{
    let b1 = best_index(q, cats1, cfg);
    lemma_best_index_in_range(q, cats1, cfg);
    let e1 = cats1[b1];
    assert(cats1.contains(e1));
    assert(cats2.contains(e1));
    lemma_best_index_in_range(q, cats2, cfg);
    let b2 = best_index(q, cats2, cfg);
    let e2 = cats2[b2];
    lemma_winner_ranks_first(q, cats1, cfg);
    lemma_winner_ranks_first(q, cats2, cfg);
    if e1 != e2 {
        let j1 = choose|j: int| 0 <= j < cats2.len() && cats2[j] == e1;
        assert(ranks_before(q, e2, cats2[j1], cfg));
        assert(cats2.contains(e2));
        assert(cats1.contains(e2));
        let j2 = choose|j: int| 0 <= j < cats1.len() && cats1[j] == e2;
        assert(ranks_before(q, e1, cats1[j2], cfg));
        lemma_ranks_before_asymmetric(q, e1, e2, cfg);
    }
}

/// Matching is deterministic: two results that both meet the contract of
/// matching on the same query, catalog and configuration agree in every
/// field, the chosen slug and the list of slugs included.
pub proof fn lemma_outcome_is_determined(
    r1: Result<MatchResult, MatchError>,
    r2: Result<MatchResult, MatchError>,
    q: Seq<char>,
    cats: Seq<(String, Category)>,
    cfg: MatchConfig,
)
    requires
        match_outcome(r1, q, cats, cfg),
        match_outcome(r2, q, cats, cfg),
    ensures
        r1 is Ok <==> r2 is Ok,
        r1 matches Ok(m1) ==> r2 matches Ok(m2) && m1.slug@ == m2.slug@ && m1.score == m2.score
            && m1.category.same_as(m2.category),
        r1 matches Err(e1) ==> r2 matches Err(e2) && match (e1, e2) {
            (
                MatchError::BelowThreshold {
                    threshold: t1,
                    closest_slug: c1,
                    closest_score: s1,
                    all_slugs: a1,
                },
                MatchError::BelowThreshold {
                    threshold: t2,
                    closest_slug: c2,
                    closest_score: s2,
                    all_slugs: a2,
                },
            ) => t1 == t2 && c1@ == c2@ && s1 == s2 && texts_of(a1@) == texts_of(a2@),
            _ => false,
        },
{
    let b = best_index(q, cats, cfg);
    if entry_score(q, cats[b], cfg) < cfg.match_threshold {
        if let (
            Err(MatchError::BelowThreshold { all_slugs: a1, .. }),
            Err(MatchError::BelowThreshold { all_slugs: a2, .. }),
        ) = (r1, r2) {
            lemma_sorted_slugs_unique(texts_of(a1@), texts_of(a2@), slugs_of(cats));
        }
    }
}

} // verus!
