use vstd::prelude::*;

verus! {

/// The catalog of curated categories.
#[derive(Debug, Clone)]
pub struct Registry {
    /// Semantic version of the catalog, e.g. "0.1.0".
    pub version: String,
    /// Date of the last update, e.g. "2026-02-01".
    pub updated: String,
    /// Who curates the catalog.
    pub curator: Curator,
    /// Endorsements by other curators (may be empty).
    pub endorsements: Vec<Endorsement>,
    /// The categories, each under its slug (e.g. "rust-learning").
    pub categories: Vec<(String, Category)>,
}

/// Identity of a curator.
#[derive(Debug, Clone)]
pub struct Curator {
    /// Display name.
    pub name: String,
    /// Public key of the curator.
    pub pubkey: String,
}

/// An endorsement by another curator; it carries nothing yet.
#[derive(Debug, Clone)]
pub struct Endorsement {}

/// A topic with its three curated sources.
#[derive(Debug, Clone)]
pub struct Category {
    /// Display name.
    pub name: String,
    /// What the category is about.
    pub description: String,
    /// Example phrasings of queries that this category answers.
    pub query_patterns: Vec<String>,
    /// The ranked sources.
    pub sources: Vec<Source>,
}

/// One curated source of a category.
#[derive(Debug, Clone)]
pub struct Source {
    /// Rank of the source within its category, from 1.
    pub rank: u8,
    /// Display name.
    pub name: String,
    /// Where the source lives.
    pub url: String,
    /// Kind of source.
    pub source_type: SourceType,
    /// Why the curator picked it.
    pub why: String,
}

/// The kinds of source.
#[derive(Debug, Clone, Copy, PartialEq, Eq, Structural)]
pub enum SourceType {
    Documentation,
    Tutorial,
    Video,
    Article,
    Tool,
    Repo,
    Forum,
    Book,
    Course,
    Api,
}

/// The slugs of a list of categories.
pub open spec fn slugs_of(cats: Seq<(String, Category)>) -> Seq<Seq<char>> {
    cats.map_values(|e: (String, Category)| e.0@)
}

/// No two categories share a slug.
pub open spec fn distinct_slugs(cats: Seq<(String, Category)>) -> bool {
    forall|i: int, j: int|
        0 <= i < cats.len() && 0 <= j < cats.len() && i != j ==> #[trigger] cats[i].0@
            != #[trigger] cats[j].0@
}

impl Registry {
    /// What the matcher assumes of a catalog: at least one category, and no
    /// two under one slug.
    pub open spec fn wf(&self) -> bool {
        self.categories@.len() > 0 && distinct_slugs(self.categories@)
    }
}

impl Registry {
    /// Position of the first category under `slug`, if there is one.
    pub fn find_category(&self, slug: &str) -> (r: Option<usize>)
        ensures
            r matches Some(i) ==> i < self.categories@.len() && self.categories@[i as int].0@
                == slug@ && forall|j: int| 0 <= j < i ==> self.categories@[j].0@ != slug@,
            r is None ==> forall|j: int|
                0 <= j < self.categories@.len() ==> self.categories@[j].0@ != slug@,
    {
        let mut i: usize = 0;
        while i < self.categories.len()
            invariant
                i <= self.categories@.len(),
                forall|j: int| 0 <= j < i ==> self.categories@[j].0@ != slug@,
            decreases self.categories.len() - i,
        {
            if crate::text::same_text(self.categories[i].0.as_str(), slug) {
                return Some(i);
            }
            i = i + 1;
        }
        None
    }
}

impl Source {
    /// A copy with the same fields.
    pub fn duplicate(&self) -> (r: Source)
        ensures
            r == *self,
    {
        Source {
            rank: self.rank,
            name: self.name.clone(),
            url: self.url.clone(),
            source_type: self.source_type,
            why: self.why.clone(),
        }
    }
}

/// A copy of a list of texts.
fn duplicate_texts(v: &Vec<String>) -> (r: Vec<String>)
    ensures
        r@ == v@,
{
    let mut r: Vec<String> = Vec::new();
    let mut i: usize = 0;
    while i < v.len()
        invariant
            i <= v@.len(),
            r@ == v@.take(i as int),
        decreases v.len() - i,
    {
        r.push(v[i].clone());
        i = i + 1;
        assert(r@ =~= v@.take(i as int));
    }
    assert(v@.take(v@.len() as int) =~= v@);
    r
}

impl Category {
    /// `other` holds the same name, description, query patterns and sources.
    pub open spec fn same_as(&self, other: Category) -> bool {
        &&& self.name == other.name
        &&& self.description == other.description
        &&& self.query_patterns@ == other.query_patterns@
        &&& self.sources@ == other.sources@
    }

    /// A copy with the same fields.
    pub fn duplicate(&self) -> (r: Category)
        ensures
            r.same_as(*self),
    {
        let mut sources: Vec<Source> = Vec::new();
        let mut i: usize = 0;
        while i < self.sources.len()
            invariant
                i <= self.sources@.len(),
                sources@ == self.sources@.take(i as int),
            decreases self.sources.len() - i,
        {
            sources.push(self.sources[i].duplicate());
            i = i + 1;
            assert(sources@ =~= self.sources@.take(i as int));
        }
        assert(self.sources@.take(self.sources@.len() as int) =~= self.sources@);
        let r = Category {
            name: self.name.clone(),
            description: self.description.clone(),
            query_patterns: duplicate_texts(&self.query_patterns),
            sources,
        };
        r
    }
}

} // verus!
