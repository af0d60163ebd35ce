//! Between chunks and the texts and scores of a reranker model.

use vstd::prelude::*;

use crate::models::{Chunk, ScoredChunk};
use crate::score::Score;
use crate::text;

verus! {

/// The score that a reranker model gave to the text at an index.
#[derive(Debug, Clone, Copy, PartialEq, Eq, Structural)]
pub struct RerankResult {
    pub index: usize,
    pub score: Score,
}

/// The texts of chunks, in order.
pub open spec fn texts(chunks: Seq<Chunk>) -> Seq<Seq<char>> {
    chunks.map_values(|c: Chunk| c.text@)
}

/// The texts of the chunks, as a reranker model takes them.
pub fn chunk_texts(chunks: &[Chunk]) -> (r: Vec<String>)
    ensures
        text::views(r@) == texts(chunks@),
{
    let mut out: Vec<String> = Vec::new();
    let mut i: usize = 0;
    while i < chunks.len()
        invariant
            i <= chunks@.len(),
            out@.len() == i,
            forall|k: int| 0 <= k < i ==> (#[trigger] out@[k])@ == chunks@[k].text@,
        decreases chunks@.len() - i,
    {
        out.push(chunks[i].text.clone());
        i += 1;
    }
    assert(text::views(out@) =~= texts(chunks@));
    out
}

/// The chunks that the results point at, with their scores, in the order of the
/// results. Results that point at no chunk are dropped.
pub open spec fn scored(chunks: Seq<Chunk>, results: Seq<RerankResult>) -> Seq<ScoredChunk>
    decreases results.len(),
{
    if results.len() == 0 {
        Seq::empty()
    } else {
        let before = scored(chunks, results.drop_last());
        let last = results.last();
        if last.index < chunks.len() {
            before.push(ScoredChunk { chunk: chunks[last.index as int], score: last.score })
        } else {
            before
        }
    }
}

/// The chunks with the scores that a reranker model gave to their texts.
pub fn score_chunks(chunks: &[Chunk], results: &[RerankResult]) -> (r: Vec<ScoredChunk>)
    ensures
        r@ == scored(chunks@, results@),
{
    let mut out: Vec<ScoredChunk> = Vec::new();
    let mut i: usize = 0;
    assert(results@.take(0) =~= Seq::empty());
    while i < results.len()
        invariant
            i <= results@.len(),
            out@ == scored(chunks@, results@.take(i as int)),
        decreases results@.len() - i,
    {
        assert(results@.take(i + 1).drop_last() =~= results@.take(i as int));
        let result = results[i];
        if result.index < chunks.len() {
            out.push(ScoredChunk { chunk: chunks[result.index].clone(), score: result.score });
        }
        i += 1;
    }
    assert(results@.take(results@.len() as int) =~= results@);
    out
}

/// The texts are those of the chunks, one for each and in the same order, so that
/// the index of a text is that of its chunk.
pub proof fn law_texts_are_those_of_the_chunks(chunks: Seq<Chunk>, i: int)
    requires
        0 <= i < chunks.len(),
    ensures
        texts(chunks).len() == chunks.len(),
        texts(chunks)[i] == chunks[i].text@,
{
}

/// Each score goes to the chunk whose text it was given for, in the order of the
/// results, and only results that point at no chunk are dropped. The result gives
/// where each scored chunk comes from.
pub proof fn law_scores_go_to_their_chunks(chunks: Seq<Chunk>, results: Seq<RerankResult>) -> (from:
    Seq<int>)
    ensures
        from.len() == scored(chunks, results).len(),
        forall|p: int, q: int| 0 <= p < q < from.len() ==> #[trigger] from[p] < #[trigger] from[q],
        forall|p: int|
            0 <= p < from.len() ==> {
                let result = results[#[trigger] from[p]];
                &&& 0 <= from[p] < results.len()
                &&& result.index < chunks.len()
                &&& scored(chunks, results)[p].chunk == chunks[result.index as int]
                &&& scored(chunks, results)[p].score == result.score
            },
        forall|i: int|
            0 <= i < results.len() && (#[trigger] results[i]).index < chunks.len()
                ==> from.contains(i),
    decreases results.len(),
{
    if results.len() == 0 {
        Seq::empty()
    } else {
        let front = results.drop_last();
        let last = results.len() - 1;
        let places = law_scores_go_to_their_chunks(chunks, front);
        let from = if results.last().index < chunks.len() {
            places.push(last)
        } else {
            places
        };
        assert forall|p: int| 0 <= p < from.len() implies {
            let result = results[#[trigger] from[p]];
            &&& 0 <= from[p] < results.len()
            &&& result.index < chunks.len()
            &&& scored(chunks, results)[p].chunk == chunks[result.index as int]
            &&& scored(chunks, results)[p].score == result.score
        } by {
            if p < places.len() {
                assert(from[p] == places[p]);
                assert(front[places[p]] == results[places[p]]);
            }
        }
        assert forall|i: int| 0 <= i < results.len() && (#[trigger] results[i]).index
            < chunks.len() implies from.contains(i) by {
            if i < last {
                assert(front[i] == results[i]);
                assert(places.contains(i));
                let k = choose|k: int| 0 <= k < places.len() && places[k] == i;
                assert(from[k] == i);
            } else {
                assert(from[places.len() as int] == i);
            }
        }
        from
    }
}

} // verus!
