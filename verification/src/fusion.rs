//! Merging rankings.
//!
//! A candidate's fused score is a sum of fractions, one for each ranking that
//! holds it. What is computed here is which candidates there are, where they
//! stand in each ranking, and their order once the sums are known.

use vstd::prelude::*;

use crate::models::ScoredId;
use crate::ranking;
use crate::retriever;
use crate::score::Score;
use crate::text;

verus! {

/// A candidate and its place in each ranking that holds it, counted from one.
#[derive(Debug)]
pub struct FusionEntry {
    pub id: String,
    pub bm25_rank: Option<usize>,
    pub vector_rank: Option<usize>,
}

/// What a [`FusionEntry`] says.
pub struct FusionView {
    pub id: Seq<char>,
    pub bm25_rank: Option<usize>,
    pub vector_rank: Option<usize>,
}

impl View for FusionEntry {
    type V = FusionView;

    open spec fn view(&self) -> FusionView {
        FusionView {
            id: self.id@,
            bm25_rank: self.bm25_rank,
            vector_rank: self.vector_rank,
        }
    }
}

pub open spec fn entry_views(list: Seq<FusionEntry>) -> Seq<FusionView> {
    list.map_values(|e: FusionEntry| e@)
}

/// The first place of `id`, counted from one, or `None`.
pub open spec fn place_of(ids: Seq<Seq<char>>, id: Seq<char>, from: int) -> Option<usize>
    decreases ids.len() - from,
{
    if from < 0 || from >= ids.len() {
        None
    } else if ids[from] == id {
        Some((from + 1) as usize)
    } else {
        place_of(ids, id, from + 1)
    }
}

/// The candidates of two rankings: each id once, in the order of first
/// appearance, with its places.
pub open spec fn candidates(bm25: Seq<Seq<char>>, vector: Seq<Seq<char>>) -> Seq<FusionView> {
    retriever::distinct(bm25 + vector).map_values(
        |id: Seq<char>|
            FusionView {
                id,
                bm25_rank: place_of(bm25, id, 0),
                vector_rank: place_of(vector, id, 0),
            },
    )
}

/// The first places of the ids in a ranking.
spec fn is_place_map(map: Map<Seq<char>, usize>, ids: Seq<Seq<char>>) -> bool {
    forall|id: Seq<char>|
        #![trigger map.contains_key(id)]
        (if map.contains_key(id) {
            place_of(ids, id, 0) == Some(map[id])
        } else {
            place_of(ids, id, 0) is None
        })
}

proof fn lemma_place_found(ids: Seq<Seq<char>>, id: Seq<char>, from: int, k: int)
    requires
        0 <= from <= k < ids.len(),
        ids[k] == id,
        forall|j: int| from <= j < k ==> #[trigger] ids[j] != id,
    ensures
        place_of(ids, id, from) == Some((k + 1) as usize),
    decreases k - from,
{
    if from < k {
        lemma_place_found(ids, id, from + 1, k);
    }
}

proof fn lemma_place_missing(ids: Seq<Seq<char>>, id: Seq<char>, from: int)
    requires
        0 <= from <= ids.len(),
        forall|j: int| from <= j < ids.len() ==> #[trigger] ids[j] != id,
    ensures
        place_of(ids, id, from) is None,
    decreases ids.len() - from,
{
    if from < ids.len() {
        lemma_place_missing(ids, id, from + 1);
    }
}

fn map_places(list: &Vec<ScoredId>) -> (r: vstd::hash_map::StringHashMap<usize>)
    ensures
        is_place_map(r@, retriever::ids_of(list@)),
{
    let mut map: vstd::hash_map::StringHashMap<usize> = vstd::hash_map::StringHashMap::new();
    let ghost ids = retriever::ids_of(list@);
    let mut i: usize = list.len();
    while i > 0
        invariant
            i <= list@.len(),
            ids == retriever::ids_of(list@),
            forall|id: Seq<char>|
                #![trigger map@.contains_key(id)]
                (if map@.contains_key(id) {
                    &&& i < map@[id] <= ids.len()
                    &&& ids[map@[id] - 1] == id
                    &&& forall|j: int| i <= j < map@[id] - 1 ==> #[trigger] ids[j] != id
                } else {
                    forall|j: int| i <= j < ids.len() ==> #[trigger] ids[j] != id
                }),
        decreases i,
    {
        i -= 1;
        assert(ids[i as int] == list@[i as int].id@);
        map.insert(list[i].id.clone(), i + 1);
    }
    proof {
        assert forall|id: Seq<char>|
            #![trigger map@.contains_key(id)]
            (if map@.contains_key(id) {
                place_of(ids, id, 0) == Some(map@[id])
            } else {
                place_of(ids, id, 0) is None
            }) by {
            if map@.contains_key(id) {
                lemma_place_found(ids, id, 0, map@[id] - 1);
            } else {
                lemma_place_missing(ids, id, 0);
            }
        }
    }
    map
}

fn lookup(map: &vstd::hash_map::StringHashMap<usize>, id: &str, Ghost(ids): Ghost<Seq<Seq<char>>>) -> (r:
    Option<usize>)
    requires
        is_place_map(map@, ids),
    ensures
        r == place_of(ids, id@, 0),
{
    match map.get(id) {
        Some(p) => Some(*p),
        None => None,
    }
}

/// The candidates of two rankings, with their places in each.
pub fn collect_candidates(bm25: &Vec<ScoredId>, vector: &Vec<ScoredId>) -> (r: Vec<FusionEntry>)
    ensures
        entry_views(r@) == candidates(retriever::ids_of(bm25@), retriever::ids_of(vector@)),
{
    let ghost a = retriever::ids_of(bm25@);
    let ghost b = retriever::ids_of(vector@);
    let in_bm25 = map_places(bm25);
    let in_vector = map_places(vector);
    let ids = distinct_ids(bm25, vector);
    let mut out: Vec<FusionEntry> = Vec::new();
    let mut i: usize = 0;
    while i < ids.len()
        invariant
            i <= ids@.len(),
            text::views(ids@) == retriever::distinct(a + b),
            is_place_map(in_bm25@, a),
            is_place_map(in_vector@, b),
            entry_views(out@) == candidates(a, b).take(i as int),
        decreases ids@.len() - i,
    {
        let id = ids[i].as_str();
        assert(text::views(ids@)[i as int] == id@);
        let ghost before = entry_views(out@);
        out.push(
            FusionEntry {
                id: ids[i].clone(),
                bm25_rank: lookup(&in_bm25, id, Ghost(a)),
                vector_rank: lookup(&in_vector, id, Ghost(b)),
            },
        );
        assert(entry_views(out@) =~= before.push(candidates(a, b)[i as int]));
        assert(entry_views(out@) =~= candidates(a, b).take(i + 1));
        i += 1;
    }
    assert(text::views(ids@).len() == ids@.len());
    assert(entry_views(out@) =~= candidates(a, b));
    out
}

/// The ids of two rankings, each once, in the order of first appearance.
fn distinct_ids(bm25: &Vec<ScoredId>, vector: &Vec<ScoredId>) -> (r: Vec<String>)
    ensures
        text::views(r@) == retriever::distinct(
            retriever::ids_of(bm25@) + retriever::ids_of(vector@),
        ),
{
    let ghost a = retriever::ids_of(bm25@);
    let ghost b = retriever::ids_of(vector@);
    let mut seen = vstd::hash_set::StringHashSet::new();
    let mut out: Vec<String> = Vec::new();
    assert((a + b).take(0) =~= Seq::empty());
    assert(text::views(out@) =~= Seq::empty());
    let mut i: usize = 0;
    while i < bm25.len()
        invariant
            i <= bm25@.len(),
            a == retriever::ids_of(bm25@),
            text::views(out@) == retriever::distinct((a + b).take(i as int)),
            forall|id: Seq<char>| seen@.contains(id) <==> text::views(out@).contains(id),
        decreases bm25@.len() - i,
    {
        proof {
            assert((a + b).take(i + 1).drop_last() =~= (a + b).take(i as int));
            assert((a + b).take(i + 1).last() == bm25@[i as int].id@);
        }
        push_new(&mut seen, &mut out, &bm25[i].id);
        i += 1;
    }
    let mut j: usize = 0;
    while j < vector.len()
        invariant
            j <= vector@.len(),
            a == retriever::ids_of(bm25@),
            b == retriever::ids_of(vector@),
            a.len() == bm25@.len(),
            text::views(out@) == retriever::distinct((a + b).take(a.len() + j)),
            forall|id: Seq<char>| seen@.contains(id) <==> text::views(out@).contains(id),
        decreases vector@.len() - j,
    {
        proof {
            let n = a.len() + j;
            assert((a + b).take(n + 1).drop_last() =~= (a + b).take(n));
            assert((a + b).take(n + 1).last() == vector@[j as int].id@);
        }
        push_new(&mut seen, &mut out, &vector[j].id);
        j += 1;
    }
    assert((a + b).take(a.len() + j) =~= a + b);
    out
}

/// Appends `id`, unless it is there already.
fn push_new(seen: &mut vstd::hash_set::StringHashSet, out: &mut Vec<String>, id: &String)
    requires
        forall|x: Seq<char>| old(seen)@.contains(x) <==> text::views(old(out)@).contains(x),
    ensures
        forall|x: Seq<char>| final(seen)@.contains(x) <==> text::views(final(out)@).contains(x),
        text::views(final(out)@) == if text::views(old(out)@).contains(id@) {
            text::views(old(out)@)
        } else {
            text::views(old(out)@).push(id@)
        },
{
    let ghost before = text::views(out@);
    if seen.insert(id.clone()) {
        out.push(id.clone());
        proof {
            let after = text::views(out@);
            assert(after =~= before.push(id@));
            assert forall|x: Seq<char>| seen@.contains(x) <==> after.contains(x) by {
                if before.contains(x) {
                    let k = choose|k: int| 0 <= k < before.len() && before[k] == x;
                    assert(after[k] == x);
                }
                if x == id@ {
                    assert(after[before.len() as int] == x);
                }
                if after.contains(x) {
                    let k = choose|k: int| 0 <= k < after.len() && after[k] == x;
                    if k < before.len() {
                        assert(before[k] == x);
                    }
                }
            }
        }
    }
}

// ---- ordering fused candidates ----

pub open spec fn some_scores(scores: Seq<Score>) -> Seq<Option<Score>> {
    scores.map_values(|s: Score| Some(s))
}

/// What an entry of a ranking says.
pub open spec fn scored_view(s: ScoredId) -> (Seq<char>, Score) {
    (s.id@, s.score)
}

pub open spec fn scored_views(list: Seq<ScoredId>) -> Seq<(Seq<char>, Score)> {
    list.map_values(|s: ScoredId| scored_view(s))
}

/// Whether `out` holds the candidates with their scores, best first;
/// candidates with equal scores keep their order.
pub open spec fn is_fused(
    ids: Seq<Seq<char>>,
    scores: Seq<Score>,
    out: Seq<(Seq<char>, Score)>,
) -> bool {
    exists|order: Seq<usize>|
        #[trigger] ranking::is_ranking(some_scores(scores), order) && out == order.map_values(
            |p: usize| (ids[p as int], scores[p as int]),
        )
}

/// Orders candidates by fused score, best first.
pub fn order_fused(ids: &Vec<String>, scores: &Vec<Score>) -> (r: Vec<ScoredId>)
    requires
        ids@.len() == scores@.len(),
    ensures
        is_fused(text::views(ids@), scores@, scored_views(r@)),
{
    let mut keys: Vec<Option<Score>> = Vec::new();
    let mut i: usize = 0;
    while i < scores.len()
        invariant
            i <= scores@.len(),
            keys@ == some_scores(scores@).take(i as int),
        decreases scores@.len() - i,
    {
        keys.push(Some(scores[i]));
        assert(keys@ =~= some_scores(scores@).take(i + 1));
        i += 1;
    }
    assert(keys@ =~= some_scores(scores@));
    let order = ranking::rank(&keys);
    let ghost all = text::views(ids@);
    let ghost target = order@.map_values(|p: usize| (all[p as int], scores@[p as int]));
    let mut out: Vec<ScoredId> = Vec::new();
    let mut k: usize = 0;
    while k < order.len()
        invariant
            k <= order@.len(),
            all == text::views(ids@),
            ids@.len() == scores@.len() == keys@.len(),
            ranking::is_ranking(keys@, order@),
            target == order@.map_values(|p: usize| (all[p as int], scores@[p as int])),
            scored_views(out@) == target.take(k as int),
        decreases order@.len() - k,
    {
        assert(order@[k as int] < keys@.len());
        let p: usize = order[k];
        let ghost before = scored_views(out@);
        out.push(ScoredId { id: ids[p].clone(), score: scores[p] });
        assert(scored_views(out@) =~= before.push((all[p as int], scores@[p as int])));
        assert(scored_views(out@) =~= target.take(k + 1));
        k += 1;
    }
    assert(scored_views(out@) =~= target);
    out
}

// ---- what fusing guarantees ----

/// The rank of a candidate in a ranking is the first place at which its id stands
/// there, counted from one, at whatever depth that is. It has none exactly if its
/// id does not stand there.
pub proof fn law_ranks_are_first_places(
    bm25: Seq<ScoredId>,
    vector: Seq<ScoredId>,
    found: Seq<FusionEntry>,
    e: int,
)
    requires
        bm25.len() <= usize::MAX,
        vector.len() <= usize::MAX,
        entry_views(found) == candidates(retriever::ids_of(bm25), retriever::ids_of(vector)),
        0 <= e < found.len(),
    ensures
        forall|k: int|
            0 <= k < bm25.len() ==> (found[e].bm25_rank == Some((k + 1) as usize) <==> (
            #[trigger] bm25[k]).id@ == found[e].id@ && forall|j: int|
                0 <= j < k ==> (#[trigger] bm25[j]).id@ != found[e].id@),
        found[e].bm25_rank is None <==> forall|k: int|
            0 <= k < bm25.len() ==> (#[trigger] bm25[k]).id@ != found[e].id@,
        forall|k: int|
            0 <= k < vector.len() ==> (found[e].vector_rank == Some((k + 1) as usize) <==> (
            #[trigger] vector[k]).id@ == found[e].id@ && forall|j: int|
                0 <= j < k ==> (#[trigger] vector[j]).id@ != found[e].id@),
        found[e].vector_rank is None <==> forall|k: int|
            0 <= k < vector.len() ==> (#[trigger] vector[k]).id@ != found[e].id@,
{
    let id = found[e].id@;
    let (a, b) = (retriever::ids_of(bm25), retriever::ids_of(vector));
    assert(entry_views(found).len() == found.len());
    assert(entry_views(found)[e] == found[e]@);
    assert(candidates(a, b).len() == retriever::distinct(a + b).len());
    assert(candidates(a, b)[e].id == retriever::distinct(a + b)[e]);
    assert(found[e].bm25_rank == place_of(a, id, 0));
    assert(found[e].vector_rank == place_of(b, id, 0));
    lemma_place_is_first(bm25, id);
    lemma_place_is_first(vector, id);
}

proof fn lemma_place_is_first(list: Seq<ScoredId>, id: Seq<char>)
    requires
        list.len() <= usize::MAX,
    ensures
        ({
            let rank = place_of(retriever::ids_of(list), id, 0);
            &&& forall|k: int|
                0 <= k < list.len() ==> (rank == Some((k + 1) as usize) <==> (
                #[trigger] list[k]).id@ == id && forall|j: int|
                    0 <= j < k ==> (#[trigger] list[j]).id@ != id)
            &&& rank is None <==> forall|k: int|
                0 <= k < list.len() ==> (#[trigger] list[k]).id@ != id
        }),
{
    let ids = retriever::ids_of(list);
    let rank = place_of(ids, id, 0);
    assert forall|k: int| 0 <= k < list.len() implies #[trigger] ids[k] == list[k].id@ by {}
    if exists|k: int| 0 <= k < list.len() && (#[trigger] list[k]).id@ == id {
        let k = choose|k: int| 0 <= k < list.len() && (#[trigger] list[k]).id@ == id;
        let first = lemma_first_place(ids, id, k);
        lemma_place_found(ids, id, 0, first);
        assert forall|k: int| 0 <= k < list.len() implies (rank == Some((k + 1) as usize) <==> (
        #[trigger] list[k]).id@ == id && forall|j: int|
            0 <= j < k ==> (#[trigger] list[j]).id@ != id) by {
            assert(ids[k] == list[k].id@);
            assert(list[first].id@ == id);
            if k == first {
                assert forall|j: int| 0 <= j < k implies (#[trigger] list[j]).id@ != id by {
                    assert(ids[j] == list[j].id@);
                }
            }
        }
        assert(list[first].id@ == id);
    } else {
        lemma_place_missing(ids, id, 0);
    }
}

proof fn lemma_first_place(ids: Seq<Seq<char>>, id: Seq<char>, k: int) -> (first: int)
    requires
        0 <= k < ids.len(),
        ids[k] == id,
    ensures
        0 <= first <= k,
        ids[first] == id,
        forall|j: int| 0 <= j < first ==> #[trigger] ids[j] != id,
    decreases k,
{
    if exists|j: int| 0 <= j < k && #[trigger] ids[j] == id {
        let j = choose|j: int| 0 <= j < k && #[trigger] ids[j] == id;
        lemma_first_place(ids, id, j)
    } else {
        k
    }
}

/// Every id of either ranking is a candidate, once, and nothing else is.
pub proof fn law_candidates_are_all_ids(
    bm25: Seq<ScoredId>,
    vector: Seq<ScoredId>,
    found: Seq<FusionEntry>,
)
    requires
        entry_views(found) == candidates(retriever::ids_of(bm25), retriever::ids_of(vector)),
    ensures
        forall|k: int|
            0 <= k < bm25.len() ==> exists|e: int|
                0 <= e < found.len() && (#[trigger] found[e]).id@ == (#[trigger] bm25[k]).id@,
        forall|k: int|
            0 <= k < vector.len() ==> exists|e: int|
                0 <= e < found.len() && (#[trigger] found[e]).id@ == (#[trigger] vector[k]).id@,
        forall|e: int|
            0 <= e < found.len() ==> (exists|k: int|
                0 <= k < bm25.len() && (#[trigger] bm25[k]).id@ == (#[trigger] found[e]).id@) || (exists|
                k: int,
            | 0 <= k < vector.len() && (#[trigger] vector[k]).id@ == found[e].id@),
        forall|d: int, e: int|
            0 <= d < e < found.len() ==> (#[trigger] found[d]).id@ != (#[trigger] found[e]).id@,
{
    let a = retriever::ids_of(bm25);
    let b = retriever::ids_of(vector);
    let ids = retriever::distinct(a + b);
    retriever::law_distinct(a + b);
    let views = entry_views(found);
    assert(views.len() == found.len() && ids.len() == found.len());
    assert forall|e: int| 0 <= e < found.len() implies (#[trigger] found[e]).id@ == ids[e] by {
        assert(views[e] == found[e]@);
    }
    assert forall|k: int| 0 <= k < bm25.len() implies exists|e: int|
        0 <= e < found.len() && (#[trigger] found[e]).id@ == (#[trigger] bm25[k]).id@ by {
        assert((a + b)[k] == bm25[k].id@);
        assert((a + b).contains(bm25[k].id@));
        assert(ids.contains(bm25[k].id@));
        let e = choose|e: int| 0 <= e < ids.len() && ids[e] == bm25[k].id@;
        assert(found[e].id@ == bm25[k].id@);
    }
    assert forall|k: int| 0 <= k < vector.len() implies exists|e: int|
        0 <= e < found.len() && (#[trigger] found[e]).id@ == (#[trigger] vector[k]).id@ by {
        assert((a + b)[a.len() + k] == vector[k].id@);
        assert((a + b).contains(vector[k].id@));
        assert(ids.contains(vector[k].id@));
        let e = choose|e: int| 0 <= e < ids.len() && ids[e] == vector[k].id@;
        assert(found[e].id@ == vector[k].id@);
    }
    assert forall|e: int| 0 <= e < found.len() implies (exists|k: int|
        0 <= k < bm25.len() && (#[trigger] bm25[k]).id@ == (#[trigger] found[e]).id@) || (exists|
        k: int,
    | 0 <= k < vector.len() && (#[trigger] vector[k]).id@ == found[e].id@) by {
        assert(ids.contains(ids[e]));
        assert((a + b).contains(ids[e]));
        let k = choose|k: int| 0 <= k < (a + b).len() && (a + b)[k] == ids[e];
        if k < a.len() {
            assert(bm25[k].id@ == found[e].id@);
        } else {
            assert(vector[k - a.len()].id@ == found[e].id@);
        }
    }
}

/// Fusing orders all candidates by their scores: each comes out once, with its own
/// score, a higher score in front of a lower one, and of two equal ones the one
/// that stood in front.
pub proof fn law_fused_best_first(ids: Seq<String>, scores: Seq<Score>, r: Seq<ScoredId>)
    requires
        ids.len() == scores.len(),
        is_fused(text::views(ids), scores, scored_views(r)),
    ensures
        r.len() == ids.len(),
        exists|order: Seq<int>|
            {
                &&& order.len() == r.len()
                &&& order.no_duplicates()
                &&& forall|p: int| 0 <= p < ids.len() ==> #[trigger] order.contains(p)
                &&& forall|i: int|
                    0 <= i < r.len() ==> 0 <= #[trigger] order[i] < ids.len() && r[i].id@
                        == ids[order[i]]@ && r[i].score == scores[order[i]]
                &&& forall|i: int, j: int|
                    0 <= i < j < r.len() ==> scores[#[trigger] order[j]].rank()
                        < scores[#[trigger] order[i]].rank() || scores[order[j]].rank()
                        == scores[order[i]].rank() && order[i] < order[j]
            },
{
    let keys = some_scores(scores);
    let views = scored_views(r);
    let all = text::views(ids);
    let places = choose|order: Seq<usize>|
        #[trigger] ranking::is_ranking(keys, order) && views == order.map_values(
            |p: usize| (all[p as int], scores[p as int]),
        );
    let order = places.map_values(|p: usize| p as int);
    assert(views.len() == r.len());
    assert forall|i: int| 0 <= i < r.len() implies 0 <= #[trigger] order[i] < ids.len()
        && r[i].id@ == ids[order[i]]@ && r[i].score == scores[order[i]] by {
        assert(places[i] < keys.len());
        assert(views[i] == scored_view(r[i]));
        assert(all[order[i]] == ids[order[i]]@);
    }
    assert forall|i: int, j: int| 0 <= i < j < r.len() implies scores[#[trigger] order[j]].rank()
        < scores[#[trigger] order[i]].rank() || scores[order[j]].rank() == scores[order[i]].rank()
        && order[i] < order[j] by {
        assert(ranking::precedes(keys, places[i] as int, places[j] as int));
    }
    assert forall|p: int| 0 <= p < ids.len() implies #[trigger] order.contains(p) by {
        ranking::lemma_ranking_lists_all(keys, places, p);
        let i = choose|i: int| 0 <= i < places.len() && #[trigger] places[i] == p;
        assert(order[i] == p);
    }
    assert(order.no_duplicates()) by {
        assert forall|i: int, j: int|
            0 <= i < order.len() && 0 <= j < order.len() && i != j implies order[i] != order[j] by {
            if i < j {
                assert(order[i] < order[j] || scores[order[j]].rank() < scores[order[i]].rank());
            } else {
                assert(order[j] < order[i] || scores[order[i]].rank() < scores[order[j]].rank());
            }
        }
    }
}

/// Candidates come in the order in which their ids first appear, those of the
/// keyword ranking in front. The result gives these places in the two rankings, one
/// behind the other.
pub proof fn law_candidates_in_order_of_appearance(
    bm25: Seq<ScoredId>,
    vector: Seq<ScoredId>,
    found: Seq<FusionEntry>,
) -> (at: Seq<int>)
    requires
        entry_views(found) == candidates(retriever::ids_of(bm25), retriever::ids_of(vector)),
    ensures
        at.len() == found.len(),
        forall|d: int, e: int| 0 <= d < e < at.len() ==> #[trigger] at[d] < #[trigger] at[e],
        forall|e: int|
            0 <= e < at.len() ==> 0 <= (#[trigger] at[e]) < bm25.len() + vector.len()
                && found[e].id@ == if at[e] < bm25.len() {
                bm25[at[e]].id@
            } else {
                vector[at[e] - bm25.len()].id@
            },
        forall|e: int, k: int|
            0 <= e < at.len() && 0 <= k < bm25.len() && k < #[trigger] at[e] ==> (
            #[trigger] bm25[k]).id@ != found[e].id@,
{
    let a = retriever::ids_of(bm25);
    let b = retriever::ids_of(vector);
    let all = a + b;
    let at = retriever::law_distinct_keeps_first_places(all);
    let views = entry_views(found);
    assert(views.len() == found.len());
    assert forall|e: int| 0 <= e < at.len() implies 0 <= (#[trigger] at[e]) < bm25.len()
        + vector.len() && found[e].id@ == if at[e] < bm25.len() {
        bm25[at[e]].id@
    } else {
        vector[at[e] - bm25.len()].id@
    } by {
        assert(views[e] == found[e]@);
        assert(views[e].id == retriever::distinct(all)[e]);
        assert(all[at[e]] == found[e].id@);
    }
    assert forall|e: int, k: int|
        0 <= e < at.len() && 0 <= k < bm25.len() && k < #[trigger] at[e] implies (
    #[trigger] bm25[k]).id@ != found[e].id@ by {
        assert(views[e] == found[e]@);
        assert(views[e].id == retriever::distinct(all)[e]);
        assert(all[k] == bm25[k].id@);
    }
    at
}

} // verus!
