use vstd::prelude::*;
use crate::registry::error::RegistryError;
use crate::registry::types::{Category, Registry, Source};

verus! {

/// Number of sources each category must have.
pub const SOURCES_PER_CATEGORY: usize = 3;

/// Least number of query patterns each category must have.
pub const MIN_QUERY_PATTERNS: usize = 3;

/// A lowercase ASCII letter or a digit.
pub open spec fn is_slug_char(c: char) -> bool {
    ('a' <= c && c <= 'z') || ('0' <= c && c <= '9')
}

/// `s` is runs of lowercase ASCII letters and digits joined by single hyphens.
pub open spec fn is_canonical_slug(s: Seq<char>) -> bool {
    &&& s.len() > 0
    &&& s[0] != '-'
    &&& s.last() != '-'
    &&& forall|i: int| 0 <= i < s.len() ==> is_slug_char(#[trigger] s[i]) || s[i] == '-'
    &&& forall|i: int| 0 <= i < s.len() - 1 ==> !(#[trigger] s[i] == '-' && s[i + 1] == '-')
}

/// Relies on `regex::Regex::is_match` with the pattern `^[a-z0-9]+(-[a-z0-9]+)*$`,
/// which matches the whole text exactly when it is runs of lowercase ASCII
/// letters and digits joined by single hyphens.
#[verifier::external_body]
fn matches_slug_pattern(s: &str) -> (r: bool)
    ensures
        r == is_canonical_slug(s@),
{
    regex::Regex::new(r"^[a-z0-9]+(-[a-z0-9]+)*$").unwrap().is_match(s)
}

/// The smallest of three.
pub open spec fn min3(a: u8, b: u8, c: u8) -> u8 {
    if a <= b && a <= c {
        a
    } else if b <= c {
        b
    } else {
        c
    }
}

/// The largest of three.
pub open spec fn max3(a: u8, b: u8, c: u8) -> u8 {
    if a >= b && a >= c {
        a
    } else if b >= c {
        b
    } else {
        c
    }
}

/// Three values in ascending order.
pub open spec fn sorted3(a: u8, b: u8, c: u8) -> Seq<u8> {
    seq![min3(a, b, c), (a + b + c - min3(a, b, c) - max3(a, b, c)) as u8, max3(a, b, c)]
}

/// The ranks of three sources in ascending order.
pub open spec fn sorted_ranks(sources: Seq<Source>) -> Seq<u8> {
    sorted3(sources[0].rank, sources[1].rank, sources[2].rank)
}

/// The ranks of three sources are 1, 2, 3 in some order.
pub open spec fn ranks_sequential(sources: Seq<Source>) -> bool {
    sorted_ranks(sources) == seq![1u8, 2u8, 3u8]
}

/// A catalog entry meets every rule.
pub open spec fn entry_valid(slug: Seq<char>, cat: Category) -> bool {
    &&& is_canonical_slug(slug)
    &&& cat.sources@.len() == SOURCES_PER_CATEGORY
    &&& cat.query_patterns@.len() >= MIN_QUERY_PATTERNS
    &&& ranks_sequential(cat.sources@)
}

/// `e` reports the first rule, in the order slug, source count, query
/// patterns, ranks, that the entry `cat` under `slug` breaks.
pub open spec fn reports(e: RegistryError, slug: Seq<char>, cat: Category) -> bool {
    match e {
        RegistryError::InvalidSlug { slug: s } => !is_canonical_slug(slug) && s@ == slug,
        RegistryError::InvalidSourceCount { category, expected, actual } => {
            &&& is_canonical_slug(slug)
            &&& cat.sources@.len() != SOURCES_PER_CATEGORY
            &&& category@ == cat.name@
            &&& expected == SOURCES_PER_CATEGORY
            &&& actual == cat.sources@.len()
        },
        RegistryError::InsufficientQueryPatterns { category, minimum, actual } => {
            &&& is_canonical_slug(slug)
            &&& cat.sources@.len() == SOURCES_PER_CATEGORY
            &&& cat.query_patterns@.len() < MIN_QUERY_PATTERNS
            &&& category@ == cat.name@
            &&& minimum == MIN_QUERY_PATTERNS
            &&& actual == cat.query_patterns@.len()
        },
        RegistryError::InvalidRanks { category, actual, expected } => {
            &&& is_canonical_slug(slug)
            &&& cat.sources@.len() == SOURCES_PER_CATEGORY
            &&& cat.query_patterns@.len() >= MIN_QUERY_PATTERNS
            &&& !ranks_sequential(cat.sources@)
            &&& category@ == cat.name@
            &&& actual@ == sorted_ranks(cat.sources@)
            &&& expected == SOURCES_PER_CATEGORY
        },
        _ => false,
    }
}

/// The ranks of three sources in ascending order.
fn sort_ranks(a: u8, b: u8, c: u8) -> (r: Vec<u8>)
    ensures
        r@ == sorted3(a, b, c),
{
    let (x, y) = if a <= b {
        (a, b)
    } else {
        (b, a)
    };
    let (y, z) = if y <= c {
        (y, c)
    } else {
        (c, y)
    };
    let (x, y) = if x <= y {
        (x, y)
    } else {
        (y, x)
    };
    let r = vec![x, y, z];
    assert(r@ =~= sorted3(a, b, c));
    r
}

/// Checks one entry against the rules, in order: slug format, source count,
/// query patterns, ranks.
fn validate_entry(slug: &String, category: &Category) -> (r: Result<(), RegistryError>)
    ensures
        r is Ok <==> entry_valid(slug@, *category),
        r matches Err(e) ==> reports(e, slug@, *category),
{
    if !matches_slug_pattern(slug.as_str()) {
        return Err(RegistryError::InvalidSlug { slug: slug.clone() });
    }
    if category.sources.len() != SOURCES_PER_CATEGORY {
        return Err(
            RegistryError::InvalidSourceCount {
                category: category.name.clone(),
                expected: SOURCES_PER_CATEGORY,
                actual: category.sources.len(),
            },
        );
    }
    if category.query_patterns.len() < MIN_QUERY_PATTERNS {
        return Err(
            RegistryError::InsufficientQueryPatterns {
                category: category.name.clone(),
                minimum: MIN_QUERY_PATTERNS,
                actual: category.query_patterns.len(),
            },
        );
    }
    let ranks = sort_ranks(
        category.sources[0].rank,
        category.sources[1].rank,
        category.sources[2].rank,
    );
    if !(ranks[0] == 1 && ranks[1] == 2 && ranks[2] == 3) {
        proof {
            if ranks_sequential(category.sources@) {
                assert(ranks@[0] == 1 && ranks@[1] == 2 && ranks@[2] == 3);
            }
        }
        return Err(
            RegistryError::InvalidRanks {
                category: category.name.clone(),
                actual: ranks,
                expected: SOURCES_PER_CATEGORY,
            },
        );
    }
    assert(ranks@ =~= seq![1u8, 2u8, 3u8]);
    Ok(())
}

/// The first `n` entries of `cats` meet every rule.
pub open spec fn valid_before(cats: Seq<(String, Category)>, n: int) -> bool {
    forall|j: int| 0 <= j < n ==> entry_valid((#[trigger] cats[j]).0@, cats[j].1)
}

/// `e` reports the rule that entry `i` of `cats` breaks.
pub open spec fn reports_entry(e: RegistryError, cats: Seq<(String, Category)>, i: int) -> bool {
    reports(e, cats[i].0@, cats[i].1)
}

/// Checks the catalog's rules on every entry, in order, and reports the first
/// entry that breaks one.
pub fn validate(registry: &Registry) -> (r: Result<(), RegistryError>)
    ensures
        r is Ok <==> valid_before(registry.categories@, registry.categories@.len() as int),
        r matches Err(e) ==> exists|i: int|
            0 <= i < registry.categories@.len() && valid_before(registry.categories@, i)
                && #[trigger] reports_entry(e, registry.categories@, i),
{
    let cats = &registry.categories;
    let mut i: usize = 0;
    while i < cats.len()
        invariant
            cats == &registry.categories,
            i <= cats@.len(),
            forall|j: int| 0 <= j < i ==> entry_valid((#[trigger] cats@[j]).0@, cats@[j].1),
        decreases cats.len() - i,
    {
        match validate_entry(&cats[i].0, &cats[i].1) {
            Ok(()) => {},
            Err(e) => {
                assert(reports_entry(e, cats@, i as int));
                assert(!entry_valid(cats@[i as int].0@, cats@[i as int].1));
                return Err(e);
            },
        }
        i = i + 1;
    }
    Ok(())
}

/// The number of sources over the entries of `cats`.
pub open spec fn total_sources(cats: Seq<(String, Category)>) -> nat
    decreases cats.len(),
{
    if cats.len() == 0 {
        0
    } else {
        total_sources(cats.drop_last()) + cats.last().1.sources@.len()
    }
}

/// The number of sources over all categories (saturating at the largest
/// `usize`).
pub fn count_sources(registry: &Registry) -> (r: usize)
    ensures
        r == if total_sources(registry.categories@) <= usize::MAX {
            total_sources(registry.categories@)
        } else {
            usize::MAX as nat
        },
{
    let cats = &registry.categories;
    let mut total: usize = 0;
    let mut i: usize = 0;
    while i < cats.len()
        invariant
            i <= cats@.len(),
            total == if total_sources(cats@.take(i as int)) <= usize::MAX {
                total_sources(cats@.take(i as int))
            } else {
                usize::MAX as nat
            },
        decreases cats.len() - i,
    {
        proof {
            assert(cats@.take(i + 1).drop_last() =~= cats@.take(i as int));
        }
        total = total.saturating_add(cats[i].1.sources.len());
        i = i + 1;
    }
    assert(cats@.take(cats@.len() as int) =~= cats@);
    total
}

} // verus!
