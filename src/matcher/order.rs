use vstd::prelude::*;
use crate::registry::types::{Category, distinct_slugs, slugs_of};

verus! {

/// `a` comes strictly before `b` in the order of characters' code points,
/// a proper prefix first.
#[verifier::opaque]
pub open spec fn slug_lt(a: Seq<char>, b: Seq<char>) -> bool
    decreases a.len(),
{
    if a.len() == 0 {
        b.len() > 0
    } else if b.len() == 0 {
        false
    } else if a[0] != b[0] {
        a[0] < b[0]
    } else {
        slug_lt(a.drop_first(), b.drop_first())
    }
}

/// Of two different texts, one comes before the other.
pub proof fn lemma_slug_lt_total(a: Seq<char>, b: Seq<char>)
    requires
        a != b,
    ensures
        slug_lt(a, b) || slug_lt(b, a),
    decreases a.len(),
{
    reveal(slug_lt);
    if a.len() > 0 && b.len() > 0 && a[0] == b[0] {
        if a.drop_first() == b.drop_first() {
            assert(a =~= seq![a[0]] + a.drop_first());
            assert(b =~= seq![b[0]] + b.drop_first());
        }
        lemma_slug_lt_total(a.drop_first(), b.drop_first());
    } else if a.len() > 0 && b.len() > 0 {
    } else if a.len() == 0 && b.len() == 0 {
        assert(a =~= b);
    }
}

/// Whether `a` comes strictly before `b` in the order of code points.
pub fn slug_less(a: &str, b: &str) -> (r: bool)
    ensures
        r == slug_lt(a@, b@),
{
    let la = a.unicode_len();
    let lb = b.unicode_len();
    let mut i: usize = 0;
    assert(a@.skip(0) =~= a@ && b@.skip(0) =~= b@);
    proof {
        reveal(slug_lt);
    }
    while i < la && i < lb
        invariant
            la == a@.len(),
            lb == b@.len(),
            i <= la,
            i <= lb,
            slug_lt(a@, b@) == slug_lt(a@.skip(i as int), b@.skip(i as int)),
        decreases la - i,
    {
        let ca = a.get_char(i);
        let cb = b.get_char(i);
        proof {
            reveal(slug_lt);
            assert(a@.skip(i as int)[0] == ca);
            assert(b@.skip(i as int)[0] == cb);
            assert(a@.skip(i as int).drop_first() =~= a@.skip(i + 1));
            assert(b@.skip(i as int).drop_first() =~= b@.skip(i + 1));
        }
        if ca != cb {
            return ca < cb;
        }
        i = i + 1;
    }
    i < lb
}

/// `out` is the slugs `slugs` (all different) in ascending order.
pub open spec fn sorted_slugs(out: Seq<Seq<char>>, slugs: Seq<Seq<char>>) -> bool {
    &&& out.len() == slugs.len()
    &&& forall|i: int| 0 <= i < out.len() - 1 ==> slug_lt(#[trigger] out[i], out[i + 1])
    &&& forall|i: int| 0 <= i < out.len() ==> slugs.contains(#[trigger] out[i])
    &&& forall|j: int| 0 <= j < slugs.len() ==> out.contains(#[trigger] slugs[j])
}

/// The texts of a list of strings.
pub open spec fn texts_of(v: Seq<String>) -> Seq<Seq<char>> {
    v.map_values(|s: String| s@)
}

/// Each slug of `out` comes before the next.
spec fn ascending(out: Seq<String>) -> bool {
    forall|k: int| 0 <= k < out.len() - 1 ==> slug_lt(#[trigger] out[k]@, out[k + 1]@)
}

/// Each slug of `out` is the slug of one of the first `i` entries of `cats`.
spec fn drawn_from(out: Seq<String>, cats: Seq<(String, Category)>, i: int) -> bool {
    forall|k: int|
        #![trigger out[k]]
        0 <= k < out.len() ==> exists|j: int| 0 <= j < i && (#[trigger] cats[j]).0@ == out[k]@
}

/// The slug of each of the first `i` entries of `cats` is in `out`.
spec fn covers(out: Seq<String>, cats: Seq<(String, Category)>, i: int) -> bool {
    forall|j: int|
        #![trigger cats[j]]
        0 <= j < i ==> exists|k: int| 0 <= k < out.len() && (#[trigger] out[k])@ == cats[j].0@
}

/// `out` holds, in ascending order, exactly the slugs of the first `i` entries of `cats`.
spec fn sorted_prefix(out: Seq<String>, cats: Seq<(String, Category)>, i: int) -> bool {
    &&& out.len() == i
    &&& ascending(out)
    &&& drawn_from(out, cats, i)
    &&& covers(out, cats, i)
}

/// Inserting a slug between a smaller and a larger one keeps the list ascending.
proof fn lemma_insert_ascending(out: Seq<String>, x: String, p: int)
    requires
        ascending(out),
        0 <= p <= out.len(),
        p > 0 ==> slug_lt(out[p - 1]@, x@),
        p < out.len() ==> slug_lt(x@, out[p]@),
    ensures
        ascending(out.insert(p, x)),
{
    let new = out.insert(p, x);
    assert forall|k: int| 0 <= k < new.len() - 1 implies slug_lt(#[trigger] new[k]@, new[k + 1]@) by {
        if k < p - 1 {
            assert(new[k] == out[k] && new[k + 1] == out[k + 1]);
        } else if k == p - 1 {
            assert(new[k] == out[k]);
        } else if k == p {
        } else {
            assert(new[k] == out[k - 1] && new[k + 1] == out[k]);
        }
    }
}

/// Inserting the next entry's slug keeps every slug drawn from the entries.
proof fn lemma_insert_drawn_from(out: Seq<String>, cats: Seq<(String, Category)>, i: int, p: int)
    requires
        0 <= i < cats.len(),
        drawn_from(out, cats, i),
        0 <= p <= out.len(),
    ensures
        drawn_from(out.insert(p, cats[i].0), cats, i + 1),
{
    let new = out.insert(p, cats[i].0);
    assert forall|k: int| #![trigger new[k]] 0 <= k < new.len() implies exists|j: int|
        0 <= j < i + 1 && (#[trigger] cats[j]).0@ == new[k]@ by {
        if k < p {
            assert(new[k] == out[k]);
            let j = choose|j: int| 0 <= j < i && (#[trigger] cats[j]).0@ == out[k]@;
            assert(cats[j].0@ == new[k]@);
        } else if k == p {
            assert(cats[i].0@ == new[k]@);
        } else {
            assert(new[k] == out[k - 1]);
            let j = choose|j: int| 0 <= j < i && (#[trigger] cats[j]).0@ == out[k - 1]@;
            assert(cats[j].0@ == new[k]@);
        }
    }
}

/// Inserting the next entry's slug keeps every entry's slug present.
proof fn lemma_insert_covers(out: Seq<String>, cats: Seq<(String, Category)>, i: int, p: int)
    requires
        0 <= i < cats.len(),
        covers(out, cats, i),
        0 <= p <= out.len(),
    ensures
        covers(out.insert(p, cats[i].0), cats, i + 1),
{
    let new = out.insert(p, cats[i].0);
    assert forall|j: int| #![trigger cats[j]] 0 <= j < i + 1 implies exists|k: int|
        0 <= k < new.len() && (#[trigger] new[k])@ == cats[j].0@ by {
        if j == i {
            assert(new[p]@ == cats[j].0@);
        } else {
            let k = choose|k: int| 0 <= k < out.len() && (#[trigger] out[k])@ == cats[j].0@;
            if k < p {
                assert(new[k] == out[k]);
            } else {
                assert(new[k + 1] == out[k]);
            }
        }
    }
}

/// Inserting the next slug where the ones before it are smaller keeps the
/// list sorted and complete.
proof fn lemma_insert_next_slug(out: Seq<String>, cats: Seq<(String, Category)>, i: int, p: int)
    requires
        0 <= i < cats.len(),
        distinct_slugs(cats),
        sorted_prefix(out, cats, i),
        0 <= p <= out.len(),
        forall|k: int| 0 <= k < p ==> slug_lt((#[trigger] out[k])@, cats[i].0@),
        p < out.len() ==> !slug_lt(out[p]@, cats[i].0@),
    ensures
        sorted_prefix(out.insert(p, cats[i].0), cats, i + 1),
{
    let x = cats[i].0;
    if p < out.len() {
        let j = choose|j: int| 0 <= j < i && (#[trigger] cats[j]).0@ == out[p]@;
        assert(cats[j].0@ != cats[i].0@);
        lemma_slug_lt_total(out[p]@, x@);
    }
    if p > 0 {
        assert(slug_lt(out[p - 1]@, x@));
    }
    lemma_insert_ascending(out, x, p);
    lemma_insert_drawn_from(out, cats, i, p);
    lemma_insert_covers(out, cats, i, p);
}

/// The slugs of `cats` (all different) in ascending order.
pub fn sorted_slug_list(cats: &Vec<(String, Category)>) -> (r: Vec<String>)
    requires
        distinct_slugs(cats@),
    ensures
        sorted_slugs(texts_of(r@), slugs_of(cats@)),
{
    let mut out: Vec<String> = Vec::new();
    let mut i: usize = 0;
    while i < cats.len()
        invariant
            i <= cats@.len(),
            distinct_slugs(cats@),
            sorted_prefix(out@, cats@, i as int),
        decreases cats.len() - i,
    {
        let x = &cats[i].0;
        let mut p: usize = 0;
        while p < out.len() && slug_less(out[p].as_str(), x.as_str())
            invariant
                p <= out@.len(),
                forall|k: int| 0 <= k < p ==> slug_lt((#[trigger] out@[k])@, x@),
            decreases out.len() - p,
        {
            p = p + 1;
        }
        proof {
            lemma_insert_next_slug(out@, cats@, i as int, p as int);
        }
        out.insert(p, x.clone());
        i = i + 1;
    }
    proof {
        let t = texts_of(out@);
        let sl = slugs_of(cats@);
        assert forall|k: int| 0 <= k < t.len() implies sl.contains(#[trigger] t[k]) by {
            let j = choose|j: int| 0 <= j < i && (#[trigger] cats@[j]).0@ == out@[k]@;
            assert(sl[j] == t[k]);
        }
        assert forall|j: int| 0 <= j < sl.len() implies t.contains(#[trigger] sl[j]) by {
            assert(0 <= j < i);
            let k = choose|k: int| 0 <= k < out@.len() && (#[trigger] out@[k])@ == cats@[j].0@;
            assert(t[k] == sl[j]);
        }
        assert forall|k: int| 0 <= k < t.len() - 1 implies slug_lt(#[trigger] t[k], t[k + 1]) by {
            assert(slug_lt(out@[k]@, out@[k + 1]@));
        }
    }
    out
}

/// The order of slugs is transitive.
pub proof fn lemma_slug_lt_transitive(a: Seq<char>, b: Seq<char>, c: Seq<char>)
    requires
        slug_lt(a, b),
        slug_lt(b, c),
    ensures
        slug_lt(a, c),
    decreases a.len(),
{
    reveal(slug_lt);
    if a.len() > 0 && b.len() > 0 && c.len() > 0 && a[0] == b[0] && b[0] == c[0] {
        lemma_slug_lt_transitive(a.drop_first(), b.drop_first(), c.drop_first());
    }
}

/// Of two slugs, at most one comes before the other.
pub proof fn lemma_slug_lt_asymmetric(a: Seq<char>, b: Seq<char>)
    requires
        slug_lt(a, b),
    ensures
        !slug_lt(b, a),
    decreases a.len(),
{
    reveal(slug_lt);
    if a.len() > 0 && b.len() > 0 && a[0] == b[0] {
        lemma_slug_lt_asymmetric(a.drop_first(), b.drop_first());
    }
}

/// Each text of `a` comes before every later one.
pub open spec fn strictly_ascending(a: Seq<Seq<char>>) -> bool {
    forall|i: int, j: int| 0 <= i < j < a.len() ==> slug_lt(#[trigger] a[i], #[trigger] a[j])
}

/// Ascending neighbours make the whole list ascending.
proof fn lemma_neighbours_ascending(a: Seq<Seq<char>>)
    requires
        forall|i: int| 0 <= i < a.len() - 1 ==> slug_lt(#[trigger] a[i], a[i + 1]),
    ensures
        strictly_ascending(a),
{
    assert forall|i: int, j: int| 0 <= i < j < a.len() implies slug_lt(
        #[trigger] a[i],
        #[trigger] a[j],
    ) by {
        lemma_neighbours_ascending_from(a, i, j);
    }
}

proof fn lemma_neighbours_ascending_from(a: Seq<Seq<char>>, i: int, j: int)
    requires
        forall|k: int| 0 <= k < a.len() - 1 ==> slug_lt(#[trigger] a[k], a[k + 1]),
        0 <= i < j < a.len(),
    ensures
        slug_lt(a[i], a[j]),
    decreases j - i,
{
    if j > i + 1 {
        lemma_neighbours_ascending_from(a, i, j - 1);
        assert(slug_lt(a[j - 1], a[j]));
        lemma_slug_lt_transitive(a[i], a[j - 1], a[j]);
    }
}

/// Two ascending lists with the same texts are the same list.
proof fn lemma_ascending_lists_equal(a: Seq<Seq<char>>, b: Seq<Seq<char>>)
    requires
        strictly_ascending(a),
        strictly_ascending(b),
        forall|x: Seq<char>| a.contains(x) <==> b.contains(x),
    ensures
        a == b,
    decreases a.len(),
{
    if a.len() == 0 {
        if b.len() > 0 {
            assert(b.contains(b[0]));
        }
        assert(a =~= b);
    } else if b.len() == 0 {
        assert(a.contains(a[0]));
    } else {
        assert(a.contains(a[0]));
        let k = choose|k: int| 0 <= k < b.len() && b[k] == a[0];
        assert(b.contains(b[0]));
        let m = choose|m: int| 0 <= m < a.len() && a[m] == b[0];
        if k > 0 {
            assert(slug_lt(b[0], b[k]));
            if m == 0 {
                lemma_slug_lt_asymmetric(b[0], b[k]);
            } else {
                assert(slug_lt(a[0], a[m]));
                lemma_slug_lt_asymmetric(a[0], b[0]);
            }
        }
        assert(a[0] == b[0]);
        let ta = a.drop_first();
        let tb = b.drop_first();
        assert forall|i: int, j: int| 0 <= i < j < ta.len() implies slug_lt(
            #[trigger] ta[i],
            #[trigger] ta[j],
        ) by {
            assert(ta[i] == a[i + 1] && ta[j] == a[j + 1]);
        }
        assert forall|i: int, j: int| 0 <= i < j < tb.len() implies slug_lt(
            #[trigger] tb[i],
            #[trigger] tb[j],
        ) by {
            assert(tb[i] == b[i + 1] && tb[j] == b[j + 1]);
        }
        assert forall|x: Seq<char>| ta.contains(x) implies tb.contains(x) by {
            let i = choose|i: int| 0 <= i < ta.len() && ta[i] == x;
            assert(a[i + 1] == x);
            assert(slug_lt(a[0], a[i + 1]));
            assert(a.contains(x));
            let j = choose|j: int| 0 <= j < b.len() && b[j] == x;
            if j == 0 {
                lemma_slug_lt_asymmetric(a[0], x);
            }
            assert(tb[j - 1] == x);
        }
        assert forall|x: Seq<char>| tb.contains(x) implies ta.contains(x) by {
            let i = choose|i: int| 0 <= i < tb.len() && tb[i] == x;
            assert(b[i + 1] == x);
            assert(slug_lt(b[0], b[i + 1]));
            assert(b.contains(x));
            let j = choose|j: int| 0 <= j < a.len() && a[j] == x;
            if j == 0 {
                lemma_slug_lt_asymmetric(b[0], x);
            }
            assert(ta[j - 1] == x);
        }
        lemma_ascending_lists_equal(ta, tb);
        assert(a =~= seq![a[0]].add(ta));
        assert(b =~= seq![b[0]].add(tb));
    }
}

/// There is one sorted list of a catalog's slugs.
pub proof fn lemma_sorted_slugs_unique(
    a: Seq<Seq<char>>,
    b: Seq<Seq<char>>,
    slugs: Seq<Seq<char>>,
)
    requires
        sorted_slugs(a, slugs),
        sorted_slugs(b, slugs),
    ensures
        a == b,
{
    lemma_neighbours_ascending(a);
    lemma_neighbours_ascending(b);
    assert forall|x: Seq<char>| a.contains(x) implies b.contains(x) by {
        let i = choose|i: int| 0 <= i < a.len() && a[i] == x;
        assert(slugs.contains(a[i]));
        let j = choose|j: int| 0 <= j < slugs.len() && slugs[j] == x;
        assert(b.contains(slugs[j]));
    }
    assert forall|x: Seq<char>| b.contains(x) implies a.contains(x) by {
        let i = choose|i: int| 0 <= i < b.len() && b[i] == x;
        assert(slugs.contains(b[i]));
        let j = choose|j: int| 0 <= j < slugs.len() && slugs[j] == x;
        assert(a.contains(slugs[j]));
    }
    lemma_ascending_lists_equal(a, b);
}

} // verus!
