//! The order in which a book ranks its price levels, and what it means for a
//! list of levels to be sorted by it or to be the best levels of a pool.
use vstd::multiset::Multiset;
use vstd::prelude::*;

use crate::order_collection::{Level, Side};

verus! {

broadcast use vstd::seq_lib::group_to_multiset_ensures;

/// `a` comes after `b`, that is `a.cmp(&b)` is `Greater`: by price, and at
/// equal prices by amount, ascending for a bid and descending for an ask
/// (the side of `a` decides).
pub open spec fn level_after(a: Level, b: Level) -> bool {
    if a.price@ != b.price@ {
        a.price@ > b.price@
    } else {
        match a.side {
            Side::Bid => a.amount@ > b.amount@,
            Side::Ask => a.amount@ < b.amount@,
        }
    }
}

/// `a` comes before `b`, that is `a.cmp(&b)` is `Less`.
pub open spec fn level_before(a: Level, b: Level) -> bool {
    if a.price@ != b.price@ {
        a.price@ < b.price@
    } else {
        match a.side {
            Side::Bid => a.amount@ < b.amount@,
            Side::Ask => a.amount@ > b.amount@,
        }
    }
}

/// `a` has a higher price than `b`.
pub open spec fn price_after(a: Level, b: Level) -> bool {
    a.price@ > b.price@
}

/// The order of levels, as a relation.
pub open spec fn by_level() -> spec_fn(Level, Level) -> bool {
    |a: Level, b: Level| level_after(a, b)
}

/// The order of prices alone, as a relation.
pub open spec fn by_price() -> spec_fn(Level, Level) -> bool {
    |a: Level, b: Level| price_after(a, b)
}

/// The order of levels ranks `a` and `b` consistently: they differ in price,
/// or they are on the same side, or they have the same amount. Two levels of
/// one price on different sides with different amounts would each come
/// before the other.
pub open spec fn comparable(a: Level, b: Level) -> bool {
    a.price@ != b.price@ || a.side == b.side || a.amount@ == b.amount@
}

/// Every two levels of `s` are ranked consistently, so that the order of
/// levels is a total order on them.
pub open spec fn consistent(s: Seq<Level>) -> bool {
    forall|a: Level, b: Level| s.contains(a) && s.contains(b) ==> #[trigger] comparable(a, b)
}

/// No level of `s` comes after a later one.
pub open spec fn ascending(s: Seq<Level>, after: spec_fn(Level, Level) -> bool) -> bool {
    forall|i: int, j: int| 0 <= i < j < s.len() ==> !after(#[trigger] s[i], #[trigger] s[j])
}

/// `out` is `min(k, pool.len())` levels of `pool`, highest first, and no
/// level of the pool that was left out comes after one that was taken.
pub open spec fn highest(
    out: Seq<Level>,
    pool: Seq<Level>,
    k: nat,
    after: spec_fn(Level, Level) -> bool,
) -> bool {
    &&& out.len() == if k < pool.len() { k } else { pool.len() }
    &&& out.to_multiset().subset_of(pool.to_multiset())
    &&& forall|i: int, j: int| 0 <= i < j < out.len() ==> !after(#[trigger] out[j], #[trigger] out[i])
    &&& forall|x: Level, i: int|
        #![trigger pool.to_multiset().sub(out.to_multiset()).contains(x), out[i]]
        pool.to_multiset().sub(out.to_multiset()).contains(x) && 0 <= i < out.len() ==> !after(
            x,
            out[i],
        )
}

/// `out` is `min(k, pool.len())` levels of `pool`, lowest first, and no
/// level that was taken comes after one of the pool that was left out.
pub open spec fn lowest(
    out: Seq<Level>,
    pool: Seq<Level>,
    k: nat,
    after: spec_fn(Level, Level) -> bool,
) -> bool {
    &&& out.len() == if k < pool.len() { k } else { pool.len() }
    &&& out.to_multiset().subset_of(pool.to_multiset())
    &&& forall|i: int, j: int| 0 <= i < j < out.len() ==> !after(#[trigger] out[i], #[trigger] out[j])
    &&& forall|x: Level, i: int|
        #![trigger pool.to_multiset().sub(out.to_multiset()).contains(x), out[i]]
        pool.to_multiset().sub(out.to_multiset()).contains(x) && 0 <= i < out.len() ==> !after(
            out[i],
            x,
        )
}

/// Which list comes first does not matter to a merge: both orders hold the
/// same levels, so the sorted results are permutations of each other.
pub proof fn lemma_merge_order_irrelevant(a: Seq<Level>, b: Seq<Level>)
    ensures
        (a + b).to_multiset() == (b + a).to_multiset(),
{
    vstd::seq_lib::lemma_multiset_commutative(a, b);
    vstd::seq_lib::lemma_multiset_commutative(b, a);
    broadcast use vstd::multiset::group_multiset_axioms;

    assert((a + b).to_multiset() =~= (b + a).to_multiset());
}

/// Of two levels ranked consistently, at most one comes after the other.
pub proof fn lemma_after_asymmetric(a: Level, b: Level)
    requires
        comparable(a, b),
        level_after(a, b),
    ensures
        !level_after(b, a),
{
}

/// Not coming after is transitive on levels ranked consistently.
pub proof fn lemma_not_after_transitive(a: Level, b: Level, c: Level)
    requires
        comparable(a, b),
        comparable(b, c),
        comparable(a, c),
        !level_after(a, b),
        !level_after(b, c),
    ensures
        !level_after(a, c),
{
}

/// Inserting `x` at `p` adds `x` to the multiset of a sequence.
pub proof fn lemma_insert_multiset(s: Seq<Level>, p: int, x: Level)
    requires
        0 <= p <= s.len(),
    ensures
        s.insert(p, x).to_multiset() =~= s.to_multiset().insert(x),
{
    broadcast use vstd::multiset::group_multiset_axioms;

    let t = s.insert(p, x);
    assert(t.remove(p) =~= s);
    vstd::seq_lib::to_multiset_remove(t, p);
    assert(t[p] == x);
    assert(t.contains(x));
    assert(t.to_multiset().count(x) > 0);
}

/// A sequence splits into its first `k` elements and the rest, also as a multiset.
pub proof fn lemma_split_multiset(s: Seq<Level>, k: int)
    requires
        0 <= k <= s.len(),
    ensures
        s.to_multiset() =~= s.take(k).to_multiset().add(s.skip(k).to_multiset()),
        s.to_multiset().sub(s.take(k).to_multiset()) =~= s.skip(k).to_multiset(),
        s.to_multiset().sub(s.skip(k).to_multiset()) =~= s.take(k).to_multiset(),
{
    broadcast use vstd::multiset::group_multiset_axioms;

    assert(s =~= s.take(k) + s.skip(k));
    vstd::seq_lib::lemma_multiset_commutative(s.take(k), s.skip(k));
}

/// The first `k` elements of a sorted permutation of `pool` are its lowest.
pub proof fn lemma_take_lowest(
    m: Seq<Level>,
    pool: Seq<Level>,
    k: nat,
    after: spec_fn(Level, Level) -> bool,
)
    requires
        m.to_multiset() == pool.to_multiset(),
        ascending(m, after),
    ensures
        lowest(m.take(if k < m.len() { k as int } else { m.len() as int }), pool, k, after),
{
    broadcast use vstd::multiset::group_multiset_axioms;

    pool.to_multiset_ensures();
    let n = if k < m.len() { k as int } else { m.len() as int };
    let out = m.take(n);
    lemma_split_multiset(m, n);
    assert(out.to_multiset().subset_of(pool.to_multiset()));
    assert forall|x: Level, i: int|
        #![trigger pool.to_multiset().sub(out.to_multiset()).contains(x), out[i]]
        pool.to_multiset().sub(out.to_multiset()).contains(x) && 0 <= i < out.len() implies !after(
            out[i],
            x,
        ) by {
        let rest = m.skip(n);
        assert(rest.to_multiset().contains(x));
        assert(rest.contains(x));
        let j = choose|j: int| 0 <= j < rest.len() && rest[j] == x;
        assert(m[n + j] == x);
        assert(out[i] == m[i]);
    }
    assert forall|i: int, j: int| 0 <= i < j < out.len() implies !after(
        #[trigger] out[i],
        #[trigger] out[j],
    ) by {
        assert(out[i] == m[i] && out[j] == m[j]);
    }
}

/// The last `k` elements of a sorted permutation of `pool`, last first, are its highest.
pub proof fn lemma_reverse_take_highest(
    m: Seq<Level>,
    pool: Seq<Level>,
    k: nat,
    after: spec_fn(Level, Level) -> bool,
)
    requires
        m.to_multiset() == pool.to_multiset(),
        ascending(m, after),
    ensures
        highest(m.reverse().take(if k < m.len() { k as int } else { m.len() as int }), pool, k, after),
{
    broadcast use vstd::multiset::group_multiset_axioms;

    pool.to_multiset_ensures();
    let len = m.len() as int;
    let n = if k < m.len() { k as int } else { len };
    let out = m.reverse().take(n);
    let top = m.skip(len - n);
    assert(out =~= top.reverse());
    top.lemma_reverse_to_multiset();
    lemma_split_multiset(m, len - n);
    assert(out.to_multiset().subset_of(pool.to_multiset()));
    assert forall|x: Level, i: int|
        #![trigger pool.to_multiset().sub(out.to_multiset()).contains(x), out[i]]
        pool.to_multiset().sub(out.to_multiset()).contains(x) && 0 <= i < out.len() implies !after(
            x,
            out[i],
        ) by {
        let low = m.take(len - n);
        assert(low.to_multiset().contains(x));
        assert(low.contains(x));
        let j = choose|j: int| 0 <= j < low.len() && low[j] == x;
        assert(m[j] == x);
        assert(out[i] == m[len - 1 - i]);
    }
    assert forall|i: int, j: int| 0 <= i < j < out.len() implies !after(
        #[trigger] out[j],
        #[trigger] out[i],
    ) by {
        assert(out[i] == m[len - 1 - i] && out[j] == m[len - 1 - j]);
    }
}

} // verus!
