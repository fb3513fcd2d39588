use vstd::prelude::*;

verus! {

/// Position `x` comes before position `y` when its key is smaller, or the
/// keys are equal and `x` is the earlier position.
pub open spec fn key_before(keys: Seq<i128>, x: int, y: int) -> bool {
    keys[x] < keys[y] || (keys[x] == keys[y] && x < y)
}

/// Position `i` occurs in `r`.
pub open spec fn lists(r: Seq<usize>, i: int) -> bool {
    exists|k: int| 0 <= k < r.len() && r[k] == i
}

/// `r` lists every position of `keys` once, in `key_before` order.
pub open spec fn is_key_order(keys: Seq<i128>, r: Seq<usize>) -> bool {
    &&& r.len() == keys.len()
    &&& forall|k: int| 0 <= k < r.len() ==> #[trigger] r[k] < keys.len()
    &&& forall|i: int| 0 <= i < keys.len() ==> #[trigger] lists(r, i)
    &&& forall|a: int, b: int| 0 <= a < b < r.len() ==> key_before(keys, #[trigger] r[a] as int, #[trigger] r[b] as int)
}

/// The positions of `keys` sorted by key, equal keys in the order they
/// come in (an insertion sort).
pub fn order_by_key(keys: &Vec<i128>) -> (r: Vec<usize>)
    ensures
        is_key_order(keys@, r@),
{
    let n = keys.len();
    let mut r: Vec<usize> = Vec::new();
    let mut i: usize = 0;
    while i < n
        invariant
            n == keys@.len(),
            0 <= i <= n,
            r@.len() == i,
            forall|k: int| 0 <= k < r@.len() ==> #[trigger] r@[k] < i,
            forall|x: int| 0 <= x < i ==> #[trigger] lists(r@, x),
            forall|a: int, b: int|
                0 <= a < b < r@.len() ==> key_before(keys@, #[trigger] r@[a] as int, #[trigger] r@[b] as int),
        decreases n - i,
    {
        let ki = keys[i];
        let mut p: usize = 0;
        while p < r.len() && keys[r[p]] <= ki
            invariant
                n == keys@.len(),
                i < n,
                ki == keys@[i as int],
                0 <= p <= r@.len(),
                forall|k: int| 0 <= k < r@.len() ==> #[trigger] r@[k] < i,
                forall|q: int| 0 <= q < p ==> keys@[#[trigger] r@[q] as int] <= ki,
            decreases r@.len() - p,
        {
            p = p + 1;
        }
        let ghost old_r = r@;
        r.insert(p, i);
        proof {
            assert(r@ == old_r.insert(p as int, i));
            assert forall|k: int| 0 <= k < r@.len() implies #[trigger] r@[k] < i + 1 by {
                if k < p {
                    assert(r@[k] == old_r[k]);
                } else if k > p {
                    assert(r@[k] == old_r[k - 1]);
                }
            }
            assert forall|x: int| 0 <= x < i + 1 implies #[trigger] lists(r@, x) by {
                if x == i {
                    assert(r@[p as int] == x);
                } else {
                    assert(lists(old_r, x));
                    let k0 = choose|k: int| 0 <= k < old_r.len() && old_r[k] == x;
                    if k0 < p {
                        assert(r@[k0] == x);
                    } else {
                        assert(r@[k0 + 1] == x);
                    }
                }
            }
            assert forall|a: int, b: int| 0 <= a < b < r@.len() implies key_before(
                keys@,
                #[trigger] r@[a] as int,
                #[trigger] r@[b] as int,
            ) by {
                if a < p && b < p {
                    assert(r@[a] == old_r[a] && r@[b] == old_r[b]);
                } else if a < p && b == p {
                    assert(r@[a] == old_r[a]);
                    assert(keys@[old_r[a] as int] <= ki);
                } else if a < p && b > p {
                    assert(r@[a] == old_r[a] && r@[b] == old_r[b - 1]);
                } else if a == p {
                    assert(r@[b] == old_r[b - 1]);
                    assert(keys@[old_r[p as int] as int] > ki);
                    if b - 1 > p {
                        assert(key_before(keys@, old_r[p as int] as int, old_r[b - 1] as int));
                    }
                } else {
                    assert(r@[a] == old_r[a - 1] && r@[b] == old_r[b - 1]);
                }
            }
        }
        i = i + 1;
    }
    r
}

} // verus!
