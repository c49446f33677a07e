//! The order in which a scene's triangles are drawn.
use vstd::prelude::*;
use vstd::set_lib::{lemma_int_range, lemma_subset_equality, set_int_range};

verus! {

/// Triangle `a` is drawn before triangle `b`: it lies farther away (a larger
/// depth key), or as far and was added later.
pub open spec fn draws_before(keys: Seq<i64>, a: int, b: int) -> bool {
    keys[a] > keys[b] || (keys[a] == keys[b] && a > b)
}

/// `order` lists every triangle index below `keys.len()`, each once, from
/// the first drawn to the last drawn.
pub open spec fn is_draw_order(keys: Seq<i64>, order: Seq<usize>) -> bool {
    &&& order.len() == keys.len()
    &&& forall|i: int| 0 <= i < order.len() ==> #[trigger] order[i] < keys.len()
    &&& forall|i: int, j: int|
        0 <= i < j < order.len() ==> draws_before(keys, #[trigger] order[i] as int, #[trigger] order[j] as int)
}

/// Every triangle of the scene has its place in a draw order: for each index
/// `t` below `keys.len()` some position of `order` holds `t`.
pub proof fn lemma_draw_order_lists_every_triangle(keys: Seq<i64>, order: Seq<usize>)
    requires
        is_draw_order(keys, order),
    ensures
        forall|t: usize| t < keys.len() ==> #[trigger] order.contains(t),
{
    let n = keys.len() as int;
    let ints = order.map_values(|x: usize| x as int);
    assert(ints.no_duplicates()) by {
        assert forall|a: int, b: int| 0 <= a < ints.len() && 0 <= b < ints.len() && a != b implies ints[a] != ints[b] by {
            if a < b {
                assert(draws_before(keys, order[a] as int, order[b] as int));
            } else {
                assert(draws_before(keys, order[b] as int, order[a] as int));
            }
        }
    }
    ints.unique_seq_to_set();
    lemma_int_range(0, n);
    assert(ints.to_set().subset_of(set_int_range(0, n))) by {
        assert forall|x: int| ints.to_set().contains(x) implies set_int_range(0, n).contains(x) by {
            let k = choose|k: int| 0 <= k < ints.len() && ints[k] == x;
            assert(order[k] < keys.len());
        }
    }
    lemma_subset_equality(ints.to_set(), set_int_range(0, n));
    assert forall|t: usize| t < keys.len() implies #[trigger] order.contains(t) by {
        assert(set_int_range(0, n).contains(t as int));
        assert(ints.to_set().contains(t as int));
        let k = choose|k: int| 0 <= k < ints.len() && ints[k] == t as int;
        assert(order[k] == t);
    }
}

/// The painter's order of a scene: given each triangle's depth key (larger
/// is farther from the camera), returns the triangle indices sorted so that
/// the farthest comes first; triangles with equal keys come latest-added
/// first. Every index appears exactly once.
pub fn draw_order(keys: &Vec<i64>) -> (order: Vec<usize>)
    ensures
        is_draw_order(keys@, order@),
{
    let n = keys.len();
    let mut order: Vec<usize> = Vec::new();
    let mut i: usize = 0;
    while i < n
        invariant
            n == keys.len(),
            i <= n,
            order.len() == i,
            forall|k: int| 0 <= k < order.len() ==> #[trigger] order@[k] < i,
            forall|a: int, b: int|
                0 <= a < b < order.len() ==> draws_before(keys@, #[trigger] order@[a] as int, #[trigger] order@[b] as int),
        decreases n - i,
    {
        let key = keys[i];
        let mut p: usize = 0;
        while p < order.len() && keys[order[p]] > key
            invariant
                n == keys.len(),
                i < n,
                order.len() == i,
                p <= order.len(),
                forall|k: int| 0 <= k < order.len() ==> #[trigger] order@[k] < i,
                forall|k: int| 0 <= k < p ==> keys@[#[trigger] order@[k] as int] > key,
                key == keys@[i as int],
            decreases order.len() - p,
        {
            p = p + 1;
        }
        let ghost old_order = order@;
        proof {
            assert forall|k: int| p <= k < old_order.len() implies keys@[#[trigger] old_order[k] as int] <= key by {
                if k > p {
                    assert(draws_before(keys@, old_order[p as int] as int, old_order[k] as int));
                }
            }
        }
        order.insert(p, i);
        proof {
            let s = order@;
            assert(s == old_order.insert(p as int, i));
            assert forall|k: int| 0 <= k < s.len() implies #[trigger] s[k] < i + 1 by {
                if k < p {
                    assert(s[k] == old_order[k]);
                } else if k > p {
                    assert(s[k] == old_order[k - 1]);
                }
            }
            assert forall|a: int, b: int|
                0 <= a < b < s.len() implies draws_before(keys@, #[trigger] s[a] as int, #[trigger] s[b] as int) by {
                if b < p {
                    assert(s[a] == old_order[a] && s[b] == old_order[b]);
                } else if b == p {
                    assert(s[a] == old_order[a]);
                } else if a < p {
                    assert(s[a] == old_order[a] && s[b] == old_order[b - 1]);
                    assert(draws_before(keys@, old_order[a] as int, old_order[b - 1] as int));
                } else if a == p {
                    assert(s[b] == old_order[b - 1]);
                    assert(keys@[old_order[b - 1] as int] <= key);
                    assert(old_order[b - 1] < i);
                } else {
                    assert(s[a] == old_order[a - 1] && s[b] == old_order[b - 1]);
                    assert(draws_before(keys@, old_order[a - 1] as int, old_order[b - 1] as int));
                }
            }
        }
        i = i + 1;
    }
    order
}

} // verus!
