//! The prompt for a cited answer.

use vstd::prelude::*;

use crate::models::SearchHit;
use crate::text;

verus! {

/// Where a hit comes from, such as `docs/a.txt (bytes 120-512)`.
pub open spec fn source_text(hit: SearchHit) -> Seq<char> {
    hit.file_path@ + " (bytes "@ + text::decimal(hit.chunk.byte_range.start as nat) + "-"@
        + text::decimal(hit.chunk.byte_range.end as nat) + ")"@
}

/// The marker of the passage `n`, such as `[1]`.
pub open spec fn marker_text(n: nat) -> Seq<char> {
    "["@ + text::decimal(n) + "]"@
}

/// The passage `n` as it stands in the prompt.
pub open spec fn passage_text(n: nat, hit: SearchHit) -> Seq<char> {
    marker_text(n) + " "@ + source_text(hit) + ":\n"@ + hit.chunk.text@ + "\n\n"@
}

/// The first `n` passages.
pub open spec fn passages_text(hits: Seq<SearchHit>, n: int) -> Seq<char>
    decreases n,
{
    if n <= 0 {
        Seq::empty()
    } else {
        passages_text(hits, n - 1) + passage_text(n as nat, hits[n - 1])
    }
}

/// The whole prompt.
pub open spec fn prompt_text(query: Seq<char>, hits: Seq<SearchHit>) -> Seq<char> {
    "Context information is below.\n---------------------\n"@ + passages_text(
        hits,
        hits.len() as int,
    )
        + "---------------------\nGiven the context information and not prior knowledge, answer the query.\nCite sources using [1], [2], etc.\nQuery: "@
        + query + "\nAnswer:"@
}

/// Where a hit comes from.
pub fn source_of(hit: &SearchHit) -> (r: String)
    ensures
        r@ == source_text(*hit),
{
    let mut out = hit.file_path.clone();
    out.append(" (bytes ");
    text::push_decimal(&mut out, hit.chunk.byte_range.start as u128);
    out.append("-");
    text::push_decimal(&mut out, hit.chunk.byte_range.end as u128);
    out.append(")");
    out
}

/// The marker of the passage `n`.
pub fn marker(n: usize) -> (r: String)
    ensures
        r@ == marker_text(n as nat),
{
    let mut out = "[".to_string();
    text::push_decimal(&mut out, n as u128);
    out.append("]");
    out
}

/// Builds the prompt that asks for an answer to `query` from the passages in
/// `hits`. Each passage is introduced by its marker and its source, and the
/// model is told to cite by marker.
pub fn build_ask_prompt(query: &str, hits: &[SearchHit]) -> (r: String)
    ensures
        r@ == prompt_text(query@, hits@),
{
    let mut out = "Context information is below.\n---------------------\n".to_string();
    let ghost head = out@;
    let mut i: usize = 0;
    assert(head + passages_text(hits@, 0) =~= head);
    while i < hits.len()
        invariant
            i <= hits@.len(),
            out@ == head + passages_text(hits@, i as int),
        decreases hits@.len() - i,
    {
        let ghost before = out@;
        out.append(marker(i + 1).as_str());
        out.append(" ");
        out.append(source_of(&hits[i]).as_str());
        out.append(":\n");
        out.append(hits[i].chunk.text.as_str());
        out.append("\n\n");
        assert(out@ =~= before + passage_text((i + 1) as nat, hits@[i as int]));
        assert(out@ =~= head + passages_text(hits@, i + 1));
        i += 1;
    }
    out.append(
        "---------------------\nGiven the context information and not prior knowledge, answer the query.\nCite sources using [1], [2], etc.\nQuery: ",
    );
    out.append(query);
    out.append("\nAnswer:");
    out
}

// ---- what a prompt holds ----

/// Every passage stands in the prompt, in the order of the hits: behind the head,
/// the passage of each hit is its marker, the path and the bytes that it comes
/// from, and the whole text of its chunk, and the passage of the next hit or, at
/// the end, the question follows directly.
pub proof fn law_prompt_holds_all_passages(query: Seq<char>, hits: Seq<SearchHit>) -> (places: Seq<int>)
    ensures
        ({
            let prompt = prompt_text(query, hits);
            let n = hits.len() as int;
            &&& places.len() == n + 1
            &&& 0 <= places[0] <= places[n] <= prompt.len()
            &&& prompt.subrange(0, places[0])
                == "Context information is below.\n---------------------\n"@
            &&& forall|i: int|
                0 <= i < n ==> 0 <= #[trigger] places[i] <= places[i + 1] <= prompt.len()
            &&& forall|i: int|
                0 <= i < n ==> prompt.subrange(#[trigger] places[i], places[i + 1]) == "["@
                    + text::decimal((i + 1) as nat) + "]"@ + " "@ + (hits[i].file_path@
                    + " (bytes "@ + text::decimal(hits[i].chunk.byte_range.start as nat) + "-"@
                    + text::decimal(hits[i].chunk.byte_range.end as nat) + ")"@) + ":\n"@
                    + hits[i].chunk.text@ + "\n\n"@
            &&& prompt.subrange(places[n], prompt.len() as int)
                == "---------------------\nGiven the context information and not prior knowledge, answer the query.\nCite sources using [1], [2], etc.\nQuery: "@
                + query + "\nAnswer:"@
        }),
{
    let prompt = prompt_text(query, hits);
    let n = hits.len() as int;
    let head = "Context information is below.\n---------------------\n"@;
    let tail =
        "---------------------\nGiven the context information and not prior knowledge, answer the query.\nCite sources using [1], [2], etc.\nQuery: "@
        + query + "\nAnswer:"@;
    let places = Seq::new(
        (n + 1) as nat,
        |i: int| head.len() + passages_text(hits, i).len() as int,
    );
    assert(prompt =~= head + passages_text(hits, n) + tail);
    assert(prompt.subrange(0, places[0]) =~= head);
    assert forall|i: int| 0 <= i < n implies {
        &&& 0 <= #[trigger] places[i] <= places[i + 1] <= prompt.len()
        &&& prompt.subrange(places[i], places[i + 1]) == passage_text((i + 1) as nat, hits[i])
    } by {
        lemma_passages_front(hits, i + 1, n);
        let front = passages_text(hits, i);
        let one = passage_text((i + 1) as nat, hits[i]);
        let all = passages_text(hits, n);
        assert(passages_text(hits, i + 1) == front + one);
        assert forall|k: int| 0 <= k < one.len() implies prompt.subrange(
            places[i],
            places[i + 1],
        )[k] == one[k] by {
            assert(prompt[places[i] + k] == all[front.len() + k]);
            assert(all.take((front + one).len() as int)[front.len() + k] == (front + one)[front.len() + k]);
        }
        assert(prompt.subrange(places[i], places[i + 1]) =~= one);
    }
    assert(prompt.subrange(places[n], prompt.len() as int) =~= tail);
    places
}

proof fn lemma_passages_front(hits: Seq<SearchHit>, i: int, n: int)
    requires
        0 <= i <= n,
    ensures
        passages_text(hits, i).len() <= passages_text(hits, n).len(),
        passages_text(hits, n).take(passages_text(hits, i).len() as int) == passages_text(hits, i),
    decreases n,
{
    let front = passages_text(hits, i);
    if i < n {
        lemma_passages_front(hits, i, n - 1);
        let most = passages_text(hits, n - 1);
        assert(passages_text(hits, n).take(front.len() as int) =~= most.take(front.len() as int));
    } else {
        assert(front.take(front.len() as int) =~= front);
    }
}

/// A marker is the number of its passage in square brackets.
pub proof fn law_marker_is_bracketed(n: nat)
    ensures
        marker_text(n) == seq!['['] + text::decimal(n) + seq![']'],
{
    reveal_strlit("[");
    reveal_strlit("]");
    assert(marker_text(n) =~= seq!['['] + text::decimal(n) + seq![']']);
}

} // verus!
