//! Orderings of candidates by score.

use vstd::prelude::*;
use vstd::set_lib::*;

use crate::models::ScoredId;
use crate::score::Score;

verus! {

/// Whether a candidate with score `a` goes before one with score `b` whatever
/// their places were: a higher score goes first, and any score goes before a
/// missing one.
pub open spec fn better(a: Option<Score>, b: Option<Score>) -> bool {
    match (a, b) {
        (Some(x), Some(y)) => y.rank() < x.rank(),
        (Some(_), None) => true,
        (None, _) => false,
    }
}

/// Whether the candidate `x` goes before the candidate `y`: it is better, or
/// neither is better and it stood in front.
pub open spec fn precedes(keys: Seq<Option<Score>>, x: int, y: int) -> bool {
    better(keys[x], keys[y]) || (!better(keys[y], keys[x]) && x < y)
}

/// Whether `order` lists all candidates, each one before those it precedes.
pub open spec fn is_ranking(keys: Seq<Option<Score>>, order: Seq<usize>) -> bool {
    &&& order.len() == keys.len()
    &&& forall|p: int| 0 <= p < order.len() ==> (#[trigger] order[p]) < keys.len()
    &&& forall|p: int, q: int|
        0 <= p < q < order.len() ==> precedes(
            keys,
            #[trigger] order[p] as int,
            #[trigger] order[q] as int,
        )
}

/// Whether a candidate with score `a` goes before one with score `b` whatever
/// their places were.
pub fn is_better(a: Option<Score>, b: Option<Score>) -> (r: bool)
    ensures
        r == better(a, b),
{
    match a {
        Some(x) => match b {
            Some(y) => y.is_below(x),
            None => true,
        },
        None => false,
    }
}

/// Ranks candidates by score, best first. Candidates that compare equal keep
/// their places.
pub fn rank(keys: &Vec<Option<Score>>) -> (r: Vec<usize>)
    ensures
        is_ranking(keys@, r@),
{
    let mut order: Vec<usize> = Vec::new();
    let mut i: usize = 0;
    while i < keys.len()
        invariant
            i <= keys@.len(),
            order@.len() == i,
            forall|p: int| 0 <= p < order@.len() ==> (#[trigger] order@[p]) < i,
            forall|p: int, q: int|
                0 <= p < q < order@.len() ==> precedes(
                    keys@,
                    #[trigger] order@[p] as int,
                    #[trigger] order@[q] as int,
                ),
        decreases keys@.len() - i,
    {
        let mut at: usize = order.len();
        while at > 0 && is_better(keys[i], keys[order[at - 1]])
            invariant
                i < keys@.len(),
                at <= order@.len() == i,
                forall|p: int| 0 <= p < order@.len() ==> (#[trigger] order@[p]) < i,
                forall|p: int|
                    at <= p < order@.len() ==> better(
                        keys@[i as int],
                        keys@[(#[trigger] order@[p]) as int],
                    ),
            decreases at,
        {
            at -= 1;
        }
        let ghost before = order@;
        order.insert(at, i);
        proof {
            assert forall|p: int, q: int| 0 <= p < q < order@.len() implies precedes(
                keys@,
                #[trigger] order@[p] as int,
                #[trigger] order@[q] as int,
            ) by {
                let op = if p < at {
                    p
                } else {
                    p - 1
                };
                let oq = if q < at {
                    q
                } else {
                    q - 1
                };
                if p != at {
                    assert(order@[p] == before[op]);
                }
                if q != at {
                    assert(order@[q] == before[oq]);
                }
                if q == at && at > 0 {
                    // The element in front of the new one is not worse, and so
                    // none further in front is.
                    assert(!better(keys@[i as int], keys@[before[at - 1] as int]));
                    if p < at - 1 {
                        assert(precedes(keys@, before[p] as int, before[at - 1] as int));
                    }
                }
            }
            assert forall|p: int| 0 <= p < order@.len() implies (#[trigger] order@[p]) < i + 1 by {
                if p < at {
                    assert(order@[p] == before[p]);
                } else if p > at {
                    assert(order@[p] == before[p - 1]);
                }
            }
        }
        i += 1;
    }
    order
}

pub proof fn lemma_ranking_lists_all(keys: Seq<Option<Score>>, order: Seq<usize>, x: int)
    requires
        is_ranking(keys, order),
        0 <= x < keys.len(),
    ensures
        exists|p: int| 0 <= p < order.len() && #[trigger] order[p] == x,
{
    let places = order.map_values(|u: usize| u as int);
    assert(places.no_duplicates()) by {
        assert forall|p: int, q: int| 0 <= p < places.len() && 0 <= q < places.len() && p != q implies places[p]
            != places[q] by {
            assert(places[p] == order[p] as int && places[q] == order[q] as int);
            if p < q {
                assert(precedes(keys, order[p] as int, order[q] as int));
            } else {
                assert(precedes(keys, order[q] as int, order[p] as int));
            }
        }
    }
    places.unique_seq_to_set();
    let n = keys.len() as int;
    lemma_int_range(0, n);
    assert(places.to_set().subset_of(set_int_range(0, n))) by {
        assert forall|y: int| places.to_set().contains(y) implies set_int_range(0, n).contains(y) by {
            let p = choose|p: int| 0 <= p < places.len() && places[p] == y;
            assert(places[p] == order[p] as int);
        }
    }
    lemma_subset_equality(places.to_set(), set_int_range(0, n));
    assert(set_int_range(0, n).contains(x));
    let p = choose|p: int| 0 <= p < places.len() && places[p] == x;
    assert(order[p] == x);
}

/// There is only one ranking of given scores.
pub proof fn law_ranking_is_unique(keys: Seq<Option<Score>>, a: Seq<usize>, b: Seq<usize>)
    requires
        is_ranking(keys, a),
        is_ranking(keys, b),
    ensures
        a == b,
{
    lemma_rankings_agree(keys, a, b, keys.len() as int);
    assert(a =~= b);
}

proof fn lemma_rankings_agree(
    keys: Seq<Option<Score>>,
    a: Seq<usize>,
    b: Seq<usize>,
    n: int,
)
    requires
        is_ranking(keys, a),
        is_ranking(keys, b),
        0 <= n <= keys.len(),
    ensures
        forall|p: int| 0 <= p < n ==> #[trigger] a[p] == b[p],
    decreases n,
{
    if n > 0 {
        lemma_rankings_agree(keys, a, b, n - 1);
        let p = n - 1;
        if a[p] != b[p] {
            lemma_ranking_lists_all(keys, b, a[p] as int);
            lemma_ranking_lists_all(keys, a, b[p] as int);
            let q = choose|q: int| 0 <= q < b.len() && #[trigger] b[q] == a[p] as int;
            let r = choose|r: int| 0 <= r < a.len() && #[trigger] a[r] == b[p] as int;
            if q < p {
                assert(a[q] == b[q]);
                assert(precedes(keys, a[q] as int, a[p] as int));
            }
            if r < p {
                assert(a[r] == b[r]);
                assert(precedes(keys, b[r] as int, b[p] as int));
            }
            assert(precedes(keys, b[p] as int, b[q] as int));
            assert(precedes(keys, a[p] as int, a[r] as int));
        }
    }
}

/// In a ranking, candidates with a score come first, by falling score, and
/// candidates without one keep their order behind them.
pub proof fn law_scored_before_missing(
    keys: Seq<Option<Score>>,
    order: Seq<usize>,
    p: int,
    q: int,
)
    requires
        is_ranking(keys, order),
        0 <= p < q < order.len(),
    ensures
        ({
            let x = keys[order[p] as int];
            let y = keys[order[q] as int];
            &&& y is Some ==> x is Some && y->0.rank() <= x->0.rank()
            &&& x is None ==> y is None && order[p] < order[q]
        }),
{
    assert(precedes(keys, order[p] as int, order[q] as int));
}

/// The ids in `list`, each with its last score.
pub open spec fn score_map(list: Seq<ScoredId>) -> Map<Seq<char>, Score>
    decreases list.len(),
{
    if list.len() == 0 {
        Map::empty()
    } else {
        score_map(list.drop_last()).insert(list.last().id@, list.last().score)
    }
}

} // verus!
