//! Stable ordering of rows by a list of sort keys: rows compare key by key,
//! the first key that differs decides, and rows that tie keep their order.
use vstd::prelude::*;

use crate::text::{lemma_lex_irrefl, lemma_lex_total, lemma_lex_trans, lex_lt, string_lt};
use vstd::set_lib::{lemma_int_range, lemma_subset_equality, set_int_range};

verus! {

/// One key a row is sorted by.
pub enum SortKey {
    /// Text, ordered by code point.
    Text(String),
    /// A point in time; no time sorts first.
    Time(Option<i64>),
    /// A key that orders nothing: every row ties on it.
    Nothing,
}

/// `None` sorts before every time, and times sort by value.
pub open spec fn time_lt(a: Option<i64>, b: Option<i64>) -> bool {
    match (a, b) {
        (None, Some(_)) => true,
        (Some(x), Some(y)) => x < y,
        _ => false,
    }
}

/// Where a kind of key stands among the kinds (keys of one column share a kind).
pub open spec fn key_rank(k: SortKey) -> int {
    match k {
        SortKey::Text(_) => 0,
        SortKey::Time(_) => 1,
        SortKey::Nothing => 2,
    }
}

/// Key `a` sorts strictly before key `b`.
pub open spec fn key_lt(a: SortKey, b: SortKey) -> bool {
    match (a, b) {
        (SortKey::Text(x), SortKey::Text(y)) => lex_lt(x@, y@),
        (SortKey::Time(x), SortKey::Time(y)) => time_lt(x, y),
        _ => key_rank(a) < key_rank(b),
    }
}

/// The keys `a` sort strictly before the keys `b`: the first pair that does
/// not tie decides.
pub open spec fn keys_before(a: Seq<SortKey>, b: Seq<SortKey>) -> bool
    decreases a.len(),
{
    if a.len() == 0 || b.len() == 0 {
        false
    } else if key_lt(a[0], b[0]) {
        true
    } else if key_lt(b[0], a[0]) {
        false
    } else {
        keys_before(a.drop_first(), b.drop_first())
    }
}

/// Every row has as many keys as every other.
pub open spec fn same_width(keys: Seq<Seq<SortKey>>) -> bool {
    forall|r: int, s: int|
        0 <= r < keys.len() && 0 <= s < keys.len() ==> (#[trigger] keys[r]).len() == (#[trigger] keys[s]).len()
}

/// `order` lists each index below `n` exactly once.
pub open spec fn is_permutation(order: Seq<usize>, n: nat) -> bool {
    &&& order.len() == n
    &&& forall|i: int| 0 <= i < n ==> (#[trigger] order[i]) < n
    &&& forall|i: int, j: int| 0 <= i < j < n ==> order[i] != order[j]
}

/// `order` puts the rows in key order, and rows whose keys tie in their
/// original order.
pub open spec fn stably_ordered(keys: Seq<Seq<SortKey>>, order: Seq<usize>) -> bool {
    &&& is_permutation(order, keys.len())
    &&& forall|i: int, j: int|
        0 <= i < j < order.len() ==> !keys_before(
            #[trigger] keys[order[j] as int],
            #[trigger] keys[order[i] as int],
        )
    &&& forall|i: int, j: int|
        0 <= i < j < order.len() && !keys_before(
            #[trigger] keys[order[i] as int],
            #[trigger] keys[order[j] as int],
        ) ==> order[i] < order[j]
}

proof fn lemma_key_irrefl(a: SortKey)
    ensures
        !key_lt(a, a),
{
    if let SortKey::Text(x) = a {
        lemma_lex_irrefl(x@);
    }
}

proof fn lemma_key_trans(a: SortKey, b: SortKey, c: SortKey)
    requires
        key_lt(a, b),
        key_lt(b, c),
    ensures
        key_lt(a, c),
{
    if let (SortKey::Text(x), SortKey::Text(y), SortKey::Text(z)) = (a, b, c) {
        lemma_lex_trans(x@, y@, z@);
    }
}

/// Keys that tie order everything else alike.
proof fn lemma_key_split(a: SortKey, b: SortKey, c: SortKey)
    requires
        key_lt(a, b),
    ensures
        key_lt(a, c) || key_lt(c, b),
{
    match (a, c) {
        (SortKey::Text(x), SortKey::Text(z)) => {
            if x@ == z@ {
            } else {
                lemma_lex_total(x@, z@);
                if lex_lt(z@, x@) {
                    lemma_key_trans(c, a, b);
                }
            }
        },
        _ => {
            if key_lt(c, a) {
                lemma_key_trans(c, a, b);
            }
        },
    }
}

pub proof fn lemma_keys_irrefl(a: Seq<SortKey>)
    ensures
        !keys_before(a, a),
    decreases a.len(),
{
    if a.len() > 0 {
        lemma_key_irrefl(a[0]);
        lemma_keys_irrefl(a.drop_first());
    }
}

pub proof fn lemma_keys_trans(a: Seq<SortKey>, b: Seq<SortKey>, c: Seq<SortKey>)
    requires
        a.len() == b.len() == c.len(),
        keys_before(a, b),
        keys_before(b, c),
    ensures
        keys_before(a, c),
    decreases a.len(),
{
    let (x, y, z) = (a[0], b[0], c[0]);
    if key_lt(x, y) {
        if key_lt(y, z) {
            lemma_key_trans(x, y, z);
        } else {
            lemma_key_split(x, y, z);
            if key_lt(z, x) {
                lemma_key_trans(z, x, y);
            }
        }
    } else {
        if key_lt(y, z) {
            lemma_key_split(y, z, x);
            if key_lt(z, x) {
                lemma_key_split(z, x, y);
            }
        } else {
            lemma_key_split_tie(x, y, z);
            lemma_keys_trans(a.drop_first(), b.drop_first(), c.drop_first());
        }
    }
}

/// Ties are transitive.
proof fn lemma_key_split_tie(x: SortKey, y: SortKey, z: SortKey)
    requires
        !key_lt(x, y),
        !key_lt(y, x),
        !key_lt(y, z),
        !key_lt(z, y),
    ensures
        !key_lt(x, z),
        !key_lt(z, x),
{
    if key_lt(x, z) {
        lemma_key_split(x, z, y);
    }
    if key_lt(z, x) {
        lemma_key_split(z, x, y);
    }
}

pub proof fn lemma_keys_split(a: Seq<SortKey>, b: Seq<SortKey>, c: Seq<SortKey>)
    requires
        a.len() == b.len() == c.len(),
        keys_before(a, b),
    ensures
        keys_before(a, c) || keys_before(c, b),
    decreases a.len(),
{
    let (x, y, z) = (a[0], b[0], c[0]);
    if key_lt(x, y) {
        lemma_key_split(x, y, z);
        if key_lt(z, y) && key_lt(y, z) {
            lemma_key_trans(z, y, z);
            lemma_key_irrefl(z);
        }
        if key_lt(x, z) && key_lt(z, x) {
            lemma_key_trans(x, z, x);
            lemma_key_irrefl(x);
        }
    } else {
        if key_lt(x, z) {
        } else if key_lt(z, x) {
            lemma_key_split(z, x, y);
            if key_lt(y, z) {
                lemma_key_trans(y, z, x);
            }
        } else {
            lemma_key_split_tie(z, x, y);
            lemma_keys_split(a.drop_first(), b.drop_first(), c.drop_first());
        }
    }
}

/// Key `a` sorts strictly before key `b`.
pub fn key_less(a: &SortKey, b: &SortKey) -> (r: bool)
    ensures
        r == key_lt(*a, *b),
{
    match (a, b) {
        (SortKey::Text(x), SortKey::Text(y)) => string_lt(x, y),
        (SortKey::Time(x), SortKey::Time(y)) => match (x, y) {
            (None, Some(_)) => true,
            (Some(p), Some(q)) => *p < *q,
            _ => false,
        },
        (SortKey::Text(_), _) => true,
        (SortKey::Time(_), SortKey::Nothing) => true,
        _ => false,
    }
}

/// The keys `a` sort strictly before the keys `b`.
pub fn keys_less(a: &Vec<SortKey>, b: &Vec<SortKey>) -> (r: bool)
    ensures
        r == keys_before(a@, b@),
{
    let mut i: usize = 0;
    assert(a@.skip(0) =~= a@);
    assert(b@.skip(0) =~= b@);
    while i < a.len() && i < b.len()
        invariant
            i <= a@.len(),
            i <= b@.len(),
            keys_before(a@, b@) == keys_before(a@.skip(i as int), b@.skip(i as int)),
        decreases a.len() - i,
    {
        assert(a@.skip(i as int)[0] == a@[i as int]);
        assert(b@.skip(i as int)[0] == b@[i as int]);
        if key_less(&a[i], &b[i]) {
            return true;
        }
        if key_less(&b[i], &a[i]) {
            return false;
        }
        assert(a@.skip(i as int).drop_first() =~= a@.skip(i + 1));
        assert(b@.skip(i as int).drop_first() =~= b@.skip(i + 1));
        i = i + 1;
    }
    false
}

/// The indices of `keys` in key order; rows that tie keep their order.
pub fn stable_order(keys: &Vec<Vec<SortKey>>) -> (order: Vec<usize>)
    requires
        same_width(keys@.map_values(|r: Vec<SortKey>| r@)),
    ensures
        stably_ordered(keys@.map_values(|r: Vec<SortKey>| r@), order@),
{
    let ghost ks = keys@.map_values(|r: Vec<SortKey>| r@);
    let mut order: Vec<usize> = Vec::new();
    let mut k: usize = 0;
    while k < keys.len()
        invariant
            k <= keys@.len(),
            ks == keys@.map_values(|r: Vec<SortKey>| r@),
            same_width(ks),
            is_permutation(order@, k as nat),
            forall|i: int, j: int|
                0 <= i < j < order@.len() ==> !keys_before(
                    #[trigger] ks[order@[j] as int],
                    #[trigger] ks[order@[i] as int],
                ),
            forall|i: int, j: int|
                0 <= i < j < order@.len() && !keys_before(
                    #[trigger] ks[order@[i] as int],
                    #[trigger] ks[order@[j] as int],
                ) ==> order@[i] < order@[j],
        decreases keys.len() - k,
    {
        // The first place whose row sorts strictly after row `k`.
        let mut p: usize = 0;
        while p < order.len() && !keys_less(&keys[k], &keys[order[p]])
            invariant
                p <= order@.len(),
                k < keys@.len(),
                ks == keys@.map_values(|r: Vec<SortKey>| r@),
                is_permutation(order@, k as nat),
                forall|q: int| 0 <= q < p ==> !keys_before(ks[k as int], #[trigger] ks[order@[q] as int]),
            decreases order.len() - p,
        {
            p = p + 1;
        }
        let ghost old_order = order@;
        proof {
            assert(p < old_order.len() ==> keys_before(ks[k as int], ks[old_order[p as int] as int]));
        }
        order.insert(p, k);
        proof {
            old_order.insert_ensures(p as int, k);
            let n = order@;
            assert forall|i: int| 0 <= i < k + 1 implies (#[trigger] n[i]) < k + 1 by {
                if i > p {
                    assert(n[i] == old_order[i - 1]);
                }
            }
            assert forall|i: int, j: int| 0 <= i < j < k + 1 implies n[i] != n[j] by {
                if i > p {
                    assert(n[i] == old_order[i - 1]);
                }
                if j > p {
                    assert(n[j] == old_order[j - 1]);
                }
            }
            assert forall|i: int, j: int| 0 <= i < j < n.len() implies !keys_before(
                #[trigger] ks[n[j] as int],
                #[trigger] ks[n[i] as int],
            ) by {
                if i > p {
                    assert(n[i] == old_order[i - 1]);
                }
                if j > p {
                    assert(n[j] == old_order[j - 1]);
                }
                if j == p {
                    assert(n[i] == old_order[i]);
                } else if i == p {
                    // Row `k` sorts before the row at `p`, which sorts no later than `n[j]`.
                    let a = ks[k as int];
                    let b = ks[old_order[p as int] as int];
                    let c = ks[n[j] as int];
                    assert(a.len() == b.len() && b.len() == c.len());
                    lemma_keys_split(a, b, c);
                    if j - 1 > p {
                        assert(!keys_before(c, b));
                    } else {
                        lemma_keys_irrefl(b);
                    }
                    if keys_before(c, a) {
                        lemma_keys_trans(c, a, c);
                        lemma_keys_irrefl(c);
                    }
                } else if i < p {
                    assert(n[i] == old_order[i]);
                }
            }
            assert forall|i: int, j: int|
                0 <= i < j < n.len() && !keys_before(
                    #[trigger] ks[n[i] as int],
                    #[trigger] ks[n[j] as int],
                ) implies n[i] < n[j] by {
                if i > p {
                    assert(n[i] == old_order[i - 1]);
                }
                if j > p {
                    assert(n[j] == old_order[j - 1]);
                }
                if i < p {
                    assert(n[i] == old_order[i]);
                }
                if j < p {
                    assert(n[j] == old_order[j]);
                }
                if i == p {
                    let a = ks[k as int];
                    let b = ks[old_order[p as int] as int];
                    let c = ks[n[j] as int];
                    assert(a.len() == b.len() && b.len() == c.len());
                    lemma_keys_split(a, b, c);
                    if j - 1 > p {
                        assert(!keys_before(c, b));
                    } else {
                        lemma_keys_irrefl(b);
                    }
                }
            }
        }
        k = k + 1;
    }
    order
}

/// A permutation of the indices below `n` lists each of them somewhere.
pub proof fn lemma_permutation_covers(order: Seq<usize>, n: nat, x: int)
    requires
        is_permutation(order, n),
        0 <= x < n,
    ensures
        exists|j: int| 0 <= j < n && order[j] == x,
{
    let oi = order.map_values(|v: usize| v as int);
    assert forall|a: int, b: int| 0 <= a < oi.len() && 0 <= b < oi.len() && a != b implies oi[a]
        != oi[b] by {
        if a < b {
            assert(order[a] != order[b]);
        } else {
            assert(order[b] != order[a]);
        }
    }
    assert(oi.no_duplicates());
    oi.unique_seq_to_set();
    lemma_int_range(0, n as int);
    assert forall|v: int| oi.to_set().contains(v) implies set_int_range(0, n as int).contains(v) by {
        let j = choose|j: int| 0 <= j < oi.len() && oi[j] == v;
        assert(order[j] < n);
    }
    lemma_subset_equality(oi.to_set(), set_int_range(0, n as int));
    assert(set_int_range(0, n as int).contains(x));
    assert(oi.to_set().contains(x));
    let j = choose|j: int| 0 <= j < oi.len() && oi[j] == x;
    assert(order[j] == x);
}

/// Two stable orders of the same rows agree below `i`.
proof fn lemma_stable_orders_agree(keys: Seq<Seq<SortKey>>, o1: Seq<usize>, o2: Seq<usize>, i: int)
    requires
        stably_ordered(keys, o1),
        stably_ordered(keys, o2),
        0 <= i <= keys.len(),
    ensures
        forall|k: int| 0 <= k < i ==> o1[k] == o2[k],
    decreases i,
{
    if i > 0 {
        let p = i - 1;
        lemma_stable_orders_agree(keys, o1, o2, p);
        let a = o1[p];
        let b = o2[p];
        if a != b {
            let n = keys.len();
            lemma_permutation_covers(o1, n, b as int);
            lemma_permutation_covers(o2, n, a as int);
            let k = choose|k: int| 0 <= k < n && o1[k] == b;
            let j = choose|j: int| 0 <= j < n && o2[j] == a;
            if k < p {
                assert(o2[k] == b);
                assert(o2[k] != o2[p]);
            }
            if j < p {
                assert(o1[j] == a);
                assert(o1[j] != o1[p]);
            }
            assert(k > p && j > p);
            // In `o1`, `a` comes before `b`; in `o2`, `b` before `a`: they tie,
            // and stability puts each before the other.
            assert(!keys_before(keys[o1[k] as int], keys[o1[p] as int]));
            assert(!keys_before(keys[o2[j] as int], keys[o2[p] as int]));
            assert(a < b);
            assert(b < a);
        }
    }
}

/// Sorting is deterministic: two orders that both list the rows stably by
/// their keys are the same order.
pub proof fn law_stable_order_is_unique(keys: Seq<Seq<SortKey>>, o1: Seq<usize>, o2: Seq<usize>)
    requires
        stably_ordered(keys, o1),
        stably_ordered(keys, o2),
    ensures
        o1 == o2,
{
    lemma_stable_orders_agree(keys, o1, o2, keys.len() as int);
    assert(o1 =~= o2);
}

} // verus!
