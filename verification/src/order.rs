use vstd::prelude::*;

verus! {

/// Lexicographic order on character sequences, comparing code points; a proper
/// prefix comes first. This is the order in which `str` values compare.
pub open spec fn lex_lt(a: Seq<char>, b: Seq<char>) -> bool
    decreases a.len(),
{
    if a.len() == 0 {
        b.len() > 0
    } else if b.len() == 0 {
        false
    } else if a[0] != b[0] {
        (a[0] as int) < (b[0] as int)
    } else {
        lex_lt(a.drop_first(), b.drop_first())
    }
}

/// No sequence comes before itself.
pub proof fn lemma_lex_irreflexive(a: Seq<char>)
    ensures
        !lex_lt(a, a),
    decreases a.len(),
{
    if a.len() > 0 {
        lemma_lex_irreflexive(a.drop_first());
    }
}

/// Of two sequences, at most one comes before the other.
pub proof fn lemma_lex_asymmetric(a: Seq<char>, b: Seq<char>)
    ensures
        lex_lt(a, b) ==> !lex_lt(b, a),
    decreases a.len(),
{
    if a.len() > 0 && b.len() > 0 && a[0] == b[0] {
        lemma_lex_asymmetric(a.drop_first(), b.drop_first());
    }
}

/// The order is transitive.
pub proof fn lemma_lex_transitive(a: Seq<char>, b: Seq<char>, c: Seq<char>)
    requires
        lex_lt(a, b),
        lex_lt(b, c),
    ensures
        lex_lt(a, c),
    decreases a.len(),
{
    if a.len() > 0 && b.len() > 0 && c.len() > 0 && a[0] == b[0] && b[0] == c[0] {
        lemma_lex_transitive(a.drop_first(), b.drop_first(), c.drop_first());
    }
}

/// Two different sequences are always ordered one way or the other.
pub proof fn lemma_lex_total(a: Seq<char>, b: Seq<char>)
    ensures
        a != b ==> lex_lt(a, b) || lex_lt(b, a),
    decreases a.len(),
{
    if a.len() > 0 && b.len() > 0 && a[0] == b[0] {
        lemma_lex_total(a.drop_first(), b.drop_first());
        if a.drop_first() == b.drop_first() {
            assert(a =~= seq![a[0]] + a.drop_first());
            assert(b =~= seq![b[0]] + b.drop_first());
        }
    } else if a.len() == 0 && b.len() == 0 {
        assert(a =~= b);
    } else if a.len() > 0 && b.len() > 0 {
        assert(a[0] != b[0]);
        assert((a[0] as int) != (b[0] as int));
    }
}

/// Compares two character sequences in the order of `lex_lt`.
pub fn lex_less(a: &Vec<char>, b: &Vec<char>) -> (r: bool)
    ensures
        r == lex_lt(a@, b@),
{
    let mut i: usize = 0;
    assert(a@.skip(0) =~= a@);
    assert(b@.skip(0) =~= b@);
    while i < a.len() && i < b.len()
        invariant
            i <= a.len(),
            i <= b.len(),
            lex_lt(a@, b@) == lex_lt(a@.skip(i as int), b@.skip(i as int)),
        decreases a.len() - i,
    {
        if a[i] != b[i] {
            return a[i] < b[i];
        }
        assert(a@.skip(i as int).drop_first() =~= a@.skip(i + 1));
        assert(b@.skip(i as int).drop_first() =~= b@.skip(i + 1));
        i = i + 1;
    }
    i == a.len() && i < b.len()
}

/// Position `i` comes before position `j` when its key is smaller, or the keys
/// are equal and `i` came first (a stable ordering by key).
pub open spec fn key_before(keys: Seq<Seq<char>>, i: int, j: int) -> bool {
    lex_lt(keys[i], keys[j]) || (keys[i] == keys[j] && i < j)
}

/// Position `i` occurs in `order`.
pub open spec fn lists_position(order: Seq<usize>, i: int) -> bool {
    exists|p: int| 0 <= p < order.len() && order[p] == i
}

/// `order` lists every position of `keys` exactly once, in the stable order of
/// their keys. There is only one such list (`lemma_key_order_unique`).
pub open spec fn is_key_order(keys: Seq<Seq<char>>, order: Seq<usize>) -> bool {
    &&& order.len() == keys.len()
    &&& forall|p: int| 0 <= p < order.len() ==> #[trigger] order[p] < keys.len()
    &&& forall|i: int| 0 <= i < keys.len() ==> #[trigger] lists_position(order, i)
    &&& forall|p: int, q: int|
        0 <= p < q < order.len() ==> key_before(keys, #[trigger] order[p] as int, #[trigger] order[q] as int)
}

/// The positions of `keys` sorted stably by key: the order in which a stable
/// sort by these keys leaves the items they belong to.
pub fn key_order(keys: &Vec<Vec<char>>) -> (order: Vec<usize>)
    ensures
        is_key_order(keys.deep_view(), order@),
{
    let ghost ks = keys.deep_view();
    let n = keys.len();
    let mut order: Vec<usize> = Vec::new();
    let mut k: usize = 0;
    while k < n
        invariant
            n == keys.len(),
            ks == keys.deep_view(),
            k <= n,
            order.len() == k,
            forall|p: int| 0 <= p < order.len() ==> #[trigger] order@[p] < k,
            forall|i: int| 0 <= i < k ==> #[trigger] lists_position(order@, i),
            forall|p: int, q: int|
                0 <= p < q < order.len() ==> key_before(ks, #[trigger] order@[p] as int, #[trigger] order@[q] as int),
        decreases n - k,
    {
        // Binary search for the first position whose key is above the new key.
        let mut p: usize = 0;
        let mut hi: usize = order.len();
        while p < hi
            invariant
                n == keys.len(),
                ks == keys.deep_view(),
                k < n,
                order.len() == k,
                p <= hi <= order.len(),
                forall|r: int| 0 <= r < order.len() ==> #[trigger] order@[r] < k,
                forall|a: int, b: int|
                    0 <= a < b < order.len() ==> key_before(ks, #[trigger] order@[a] as int, #[trigger] order@[b] as int),
                forall|r: int| 0 <= r < p ==> !lex_lt(ks[k as int], ks[#[trigger] order@[r] as int]),
                forall|r: int| hi <= r < order.len() ==> lex_lt(ks[k as int], ks[#[trigger] order@[r] as int]),
            decreases hi - p,
        {
            let mid = p + (hi - p) / 2;
            assert(keys[k as int]@ == ks[k as int]);
            assert(keys[order@[mid as int] as int]@ == ks[order@[mid as int] as int]);
            if lex_less(&keys[k], &keys[order[mid]]) {
                proof {
                    let km = ks[order@[mid as int] as int];
                    assert forall|r: int| mid <= r < order.len() implies lex_lt(ks[k as int], ks[#[trigger] order@[r] as int]) by {
                        if r > mid {
                            assert(key_before(ks, order@[mid as int] as int, order@[r] as int));
                            if lex_lt(km, ks[order@[r] as int]) {
                                lemma_lex_transitive(ks[k as int], km, ks[order@[r] as int]);
                            }
                        }
                    }
                }
                hi = mid;
            } else {
                proof {
                    let km = ks[order@[mid as int] as int];
                    assert forall|r: int| 0 <= r < mid + 1 implies !lex_lt(ks[k as int], ks[#[trigger] order@[r] as int]) by {
                        if r < mid {
                            let kr = ks[order@[r] as int];
                            assert(key_before(ks, order@[r] as int, order@[mid as int] as int));
                            if lex_lt(ks[k as int], kr) {
                                if lex_lt(kr, km) {
                                    lemma_lex_transitive(ks[k as int], kr, km);
                                }
                            }
                        }
                    }
                }
                p = mid + 1;
            }
        }
        assert(p < order.len() ==> lex_lt(ks[k as int], ks[order@[p as int] as int]));
        let ghost old_order = order@;
        order.insert(p, k);
        proof {
            assert(order@ =~= old_order.subrange(0, p as int).push(k).add(old_order.subrange(p as int, old_order.len() as int)));
            assert forall|a: int, b: int| 0 <= a < b < order@.len() implies key_before(ks, #[trigger] order@[a] as int, #[trigger] order@[b] as int) by {
                let ia = order@[a] as int;
                let ib = order@[b] as int;
                let kk = k as int;
                if a < p && b < p {
                    assert(ia == old_order[a] && ib == old_order[b]);
                } else if a < p && b == p {
                    assert(ia == old_order[a]);
                    assert(!lex_lt(ks[kk], ks[ia]));
                    lemma_lex_total(ks[kk], ks[ia]);
                } else if a < p && b > p {
                    assert(ia == old_order[a] && ib == old_order[b - 1]);
                } else if a == p {
                    assert(ib == old_order[b - 1]);
                    let ip = old_order[p as int] as int;
                    assert(lex_lt(ks[kk], ks[ip]));
                    if b - 1 > p {
                        assert(key_before(ks, old_order[p as int] as int, old_order[b - 1] as int));
                        if lex_lt(ks[ip], ks[ib]) {
                            lemma_lex_transitive(ks[kk], ks[ip], ks[ib]);
                        }
                    }
                } else {
                    assert(ia == old_order[a - 1] && ib == old_order[b - 1]);
                }
            }
            assert forall|i: int| 0 <= i < k + 1 implies #[trigger] lists_position(order@, i) by {
                if i == k {
                    assert(order@[p as int] == k);
                } else {
                    assert(lists_position(old_order, i));
                    let q = choose|q: int| 0 <= q < old_order.len() && old_order[q] == i;
                    if q < p {
                        assert(order@[q] == i);
                    } else {
                        assert(order@[q + 1] == i);
                    }
                }
            }
        }
        k = k + 1;
    }
    order
}

/// `key_before` is a strict order: never both ways, never reflexive.
pub proof fn lemma_key_before_asymmetric(keys: Seq<Seq<char>>, i: int, j: int)
    ensures
        key_before(keys, i, j) ==> !key_before(keys, j, i),
        !key_before(keys, i, i),
{
    lemma_lex_asymmetric(keys[i], keys[j]);
    lemma_lex_irreflexive(keys[i]);
    if keys[i] == keys[j] {
        lemma_lex_irreflexive(keys[j]);
    }
}

proof fn lemma_key_orders_agree_below(keys: Seq<Seq<char>>, a: Seq<usize>, b: Seq<usize>, n: int)
    requires
        is_key_order(keys, a),
        is_key_order(keys, b),
        0 <= n <= a.len(),
    ensures
        forall|j: int| 0 <= j < n ==> a[j] == b[j],
    decreases n,
{
    if n > 0 {
        lemma_key_orders_agree_below(keys, a, b, n - 1);
        let p = n - 1;
        let x = a[p] as int;
        let y = b[p] as int;
        if x != y {
            assert(lists_position(a, y));
            let q = choose|q: int| 0 <= q < a.len() && a[q] == y;
            assert(lists_position(b, x));
            let r = choose|r: int| 0 <= r < b.len() && b[r] == x;
            if q < p {
                assert(b[q] == y);
                lemma_key_before_asymmetric(keys, y, y);
                assert(key_before(keys, b[q] as int, b[p] as int));
            } else if r < p {
                assert(a[r] == x);
                lemma_key_before_asymmetric(keys, x, x);
                assert(key_before(keys, a[r] as int, a[p] as int));
            } else {
                assert(key_before(keys, a[p] as int, a[q] as int));
                assert(key_before(keys, b[p] as int, b[r] as int));
                lemma_key_before_asymmetric(keys, x, y);
            }
        }
    }
}

/// Only one list of positions is in stable key order.
pub proof fn lemma_key_order_unique(keys: Seq<Seq<char>>, a: Seq<usize>, b: Seq<usize>)
    requires
        is_key_order(keys, a),
        is_key_order(keys, b),
    ensures
        a == b,
{
    lemma_key_orders_agree_below(keys, a, b, a.len() as int);
    assert(a =~= b);
}

} // verus!
