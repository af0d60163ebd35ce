//! What the command line prints.

use vstd::prelude::*;

use crate::indexer::IndexStats;
use crate::models::{Answer, AskEvent, Citation, Collection, EngineStatus, SearchHit};
use crate::text;

verus! {

// ---- status ----

/// The line for a collection.
pub open spec fn collection_line(c: Collection) -> Seq<char> {
    "  "@ + c.name@ + " -> "@ + c.path@
}

/// The lines that say what a workspace holds.
pub open spec fn status_text(workspace: Seq<char>, s: EngineStatus) -> Seq<Seq<char>> {
    seq![
        "Workspace: "@ + workspace,
        "Documents: "@ + text::decimal(s.documents as nat),
        "Chunks: "@ + text::decimal(s.chunks as nat),
        "Collections: "@ + text::decimal(s.collections@.len()),
    ] + s.collections@.map_values(|c: Collection| collection_line(c))
}

fn count_line(label: &str, n: usize) -> (r: String)
    ensures
        r@ == label@ + text::decimal(n as nat),
{
    let mut out = label.to_string();
    text::push_decimal(&mut out, n as u128);
    out
}

/// The lines that say what a workspace holds.
pub fn status_lines(workspace: &str, status: &EngineStatus) -> (r: Vec<String>)
    ensures
        text::views(r@) == status_text(workspace@, *status),
{
    let ghost all = status_text(workspace@, *status);
    let mut lines: Vec<String> = Vec::new();
    lines.push(text::concat("Workspace: ", workspace));
    lines.push(count_line("Documents: ", status.documents));
    lines.push(count_line("Chunks: ", status.chunks));
    lines.push(count_line("Collections: ", status.collections.len()));
    let mut i: usize = 0;
    assert(text::views(lines@) =~= all.take(4));
    while i < status.collections.len()
        invariant
            i <= status.collections@.len(),
            all == status_text(workspace@, *status),
            all.len() == 4 + status.collections@.len(),
            text::views(lines@) == all.take(4 + i),
        decreases status.collections@.len() - i,
    {
        let c = &status.collections[i];
        let ghost before = lines@;
        let mut line = text::concat3("  ", c.name.as_str(), " -> ");
        line.append(c.path.as_str());
        lines.push(line);
        assert(all[4 + i] == collection_line(status.collections@[i as int]));
        assert(text::views(lines@) =~= text::views(before).push(all[4 + i]));
        assert(text::views(lines@) =~= all.take(4 + i + 1));
        i += 1;
    }
    assert(all.take(all.len() as int) =~= all);
    lines
}

// ---- index ----

/// The line that says what was indexed.
pub open spec fn index_text(s: IndexStats) -> Seq<char> {
    "Indexed "@ + text::decimal(s.files_indexed as nat) + " files ("@ + text::decimal(
        s.chunks_indexed as nat,
    ) + " chunks, "@ + text::decimal(s.files_skipped as nat) + " skipped, "@ + text::decimal(
        s.files_removed as nat,
    ) + " removed)"@
}

/// The line that says what was indexed.
pub fn index_line(stats: &IndexStats) -> (r: String)
    ensures
        r@ == index_text(*stats),
{
    let mut out = "Indexed ".to_string();
    text::push_decimal(&mut out, stats.files_indexed as u128);
    out.append(" files (");
    text::push_decimal(&mut out, stats.chunks_indexed as u128);
    out.append(" chunks, ");
    text::push_decimal(&mut out, stats.files_skipped as u128);
    out.append(" skipped, ");
    text::push_decimal(&mut out, stats.files_removed as u128);
    out.append(" removed)");
    out
}

// ---- search ----

/// The scores of a hit as they are printed.
#[derive(Debug)]
pub struct ScoreTexts {
    pub score: String,
    pub bm25: String,
    pub vector: String,
    pub rrf: String,
    pub rerank: String,
}

/// The line for the hit at a place.
pub open spec fn hit_line(place: nat, score: Seq<char>, hit: SearchHit) -> Seq<char> {
    "["@ + text::decimal(place) + "] "@ + score + " "@ + text::trimmed(hit.chunk.text@)
}

/// The line that explains the score of a hit.
pub open spec fn explain_line(s: ScoreTexts) -> Seq<char> {
    "    bm25="@ + s.bm25@ + " vec="@ + s.vector@ + " rrf="@ + s.rrf@ + " rerank="@ + s.rerank@
}

/// The lines for the first `n` hits.
pub open spec fn hit_lines(
    hits: Seq<SearchHit>,
    scores: Seq<ScoreTexts>,
    explain: bool,
    n: int,
) -> Seq<Seq<char>>
    decreases n,
{
    if n <= 0 {
        Seq::empty()
    } else {
        let before = hit_lines(hits, scores, explain, n - 1).push(
            hit_line(n as nat, scores[n - 1].score@, hits[n - 1]),
        );
        if explain {
            before.push(explain_line(scores[n - 1]))
        } else {
            before
        }
    }
}

/// The lines for the results of a search: the hits in order, numbered from one.
pub fn search_lines(hits: &[SearchHit], scores: &[ScoreTexts], explain: bool) -> (r: Vec<String>)
    requires
        scores@.len() == hits@.len(),
    ensures
        text::views(r@) == if hits@.len() == 0 {
            seq!["No results found."@]
        } else {
            hit_lines(hits@, scores@, explain, hits@.len() as int)
        },
{
    let mut lines: Vec<String> = Vec::new();
    if hits.len() == 0 {
        lines.push("No results found.".to_string());
        assert(text::views(lines@) =~= seq!["No results found."@]);
        return lines;
    }
    let mut i: usize = 0;
    assert(text::views(lines@) =~= Seq::empty());
    while i < hits.len()
        invariant
            i <= hits@.len() == scores@.len(),
            text::views(lines@) == hit_lines(hits@, scores@, explain, i as int),
        decreases hits@.len() - i,
    {
        assert(hits.len() == hits@.len());
        let ghost before = text::views(lines@);
        let mut line = "[".to_string();
        text::push_decimal(&mut line, (i + 1) as u128);
        line.append("] ");
        line.append(scores[i].score.as_str());
        line.append(" ");
        let passage = text::trim(hits[i].chunk.text.as_str());
        line.append(passage.as_str());
        lines.push(line);
        let ghost first = hit_line((i + 1) as nat, scores@[i as int].score@, hits@[i as int]);
        assert(text::views(lines@) =~= before.push(first));
        if explain {
            let s = &scores[i];
            let mut line = "    bm25=".to_string();
            line.append(s.bm25.as_str());
            line.append(" vec=");
            line.append(s.vector.as_str());
            line.append(" rrf=");
            line.append(s.rrf.as_str());
            line.append(" rerank=");
            line.append(s.rerank.as_str());
            lines.push(line);
            assert(text::views(lines@) =~= before.push(first).push(explain_line(scores@[i as int])));
        }
        i += 1;
    }
    lines
}

// ---- ask ----

/// An answer as it comes in.
#[derive(Debug)]
pub struct AskOutput {
    /// The pieces so far.
    pub buffered: String,
    /// The complete answer, once it is there.
    pub answer: Option<Answer>,
}

/// The lines after an answer: the end of its own line, and the sources that it
/// cites, if any.
pub open spec fn source_text(answer: Option<Answer>) -> Seq<Seq<char>> {
    match answer {
        Some(a) if a.citations@.len() > 0 => seq![""@, ""@, "Sources:"@] + a.citations@.map_values(
            |c: Citation| "  "@ + c.marker@ + " "@ + c.source@,
        ),
        _ => seq![""@],
    }
}

impl AskOutput {
    pub fn new() -> (r: Self)
        ensures
            r.buffered@ == Seq::<char>::empty(),
            r.answer is None,
    {
        AskOutput { buffered: String::new(), answer: None }
    }

    /// Takes the next event, and returns what to print right away: the pieces of
    /// the answer as they come, unless it is to be printed as a whole.
    pub fn take(self, event: AskEvent, whole: bool) -> (r: (AskOutput, Option<String>))
        ensures
            match event {
                AskEvent::Token { delta } => {
                    &&& r.0.buffered@ == self.buffered@ + delta@
                    &&& r.0.answer == self.answer
                    &&& r.1 == if whole {
                        None
                    } else {
                        Some(delta)
                    }
                },
                AskEvent::AnswerComplete { answer, .. } => {
                    r.0.buffered == self.buffered && r.0.answer == Some(answer) && r.1 is None
                },
                _ => r.0 == self && r.1 is None,
            },
    {
        match event {
            AskEvent::Token { delta } => {
                let mut buffered = self.buffered;
                buffered.append(delta.as_str());
                let printed = if whole {
                    None
                } else {
                    Some(delta)
                };
                (AskOutput { buffered, answer: self.answer }, printed)
            },
            AskEvent::AnswerComplete { answer, .. } => (
                AskOutput { buffered: self.buffered, answer: Some(answer) },
                None,
            ),
            _ => (self, None),
        }
    }

    /// The whole answer: what came in piece by piece, without sources, where the
    /// complete one is missing.
    pub fn whole(self) -> (r: Answer)
        ensures
            match self.answer {
                Some(a) => r == a,
                None => r.text == self.buffered && r.citations@.len() == 0,
            },
    {
        match self.answer {
            Some(a) => a,
            None => Answer { text: self.buffered, citations: Vec::new() },
        }
    }

    /// The lines after an answer.
    pub fn source_lines(&self) -> (r: Vec<String>)
        ensures
            text::views(r@) == source_text(self.answer),
    {
        let mut lines: Vec<String> = Vec::new();
        lines.push("".to_string());
        match &self.answer {
            Some(a) => {
                if a.citations.len() > 0 {
                    lines.push("".to_string());
                    lines.push("Sources:".to_string());
                    let ghost all = source_text(self.answer);
                    let mut i: usize = 0;
                    assert(text::views(lines@) =~= all.take(3));
                    while i < a.citations.len()
                        invariant
                            i <= a.citations@.len(),
                            self.answer == Some(*a),
                            a.citations@.len() > 0,
                            all == source_text(self.answer),
                            text::views(lines@) == all.take(3 + i),
                        decreases a.citations@.len() - i,
                    {
                        let c = &a.citations[i];
                        let ghost before = lines@;
                        let mut line = text::concat3("  ", c.marker.as_str(), " ");
                        line.append(c.source.as_str());
                        lines.push(line);
                        assert(text::views(lines@) =~= text::views(before).push(all[3 + i]));
                        assert(text::views(lines@) =~= all.take(3 + i + 1));
                        i += 1;
                    }
                    assert(all.take(all.len() as int) =~= all);
                    return lines;
                }
            },
            None => {},
        }
        assert(text::views(lines@) =~= seq![""@]);
        lines
    }
}

// ---- what is printed ----

/// Every hit has its line, in order: its place from one on in square brackets, its
/// score, and its text without the whitespace around it. Where scores are
/// explained each is followed by a line with the scores of all stages.
pub proof fn law_every_hit_is_printed(
    hits: Seq<SearchHit>,
    scores: Seq<ScoreTexts>,
    explain: bool,
    n: int,
    i: int,
)
    requires
        0 <= i < n <= hits.len(),
        hits.len() == scores.len(),
    ensures
        ({
            let lines = hit_lines(hits, scores, explain, n);
            let line = "["@ + text::decimal((i + 1) as nat) + "] "@ + scores[i].score@ + " "@
                + text::trimmed(hits[i].chunk.text@);
            if explain {
                &&& lines.len() == 2 * n
                &&& lines[2 * i] == line
                &&& lines[2 * i + 1] == "    bm25="@ + scores[i].bm25@ + " vec="@ + scores[i].vector@
                    + " rrf="@ + scores[i].rrf@ + " rerank="@ + scores[i].rerank@
            } else {
                lines.len() == n && lines[i] == line
            }
        }),
    decreases n,
{
    let before = hit_lines(hits, scores, explain, n - 1);
    lemma_line_count(hits, scores, explain, n - 1);
    if i < n - 1 {
        law_every_hit_is_printed(hits, scores, explain, n - 1, i);
    }
}

proof fn lemma_line_count(hits: Seq<SearchHit>, scores: Seq<ScoreTexts>, explain: bool, n: int)
    requires
        0 <= n,
    ensures
        hit_lines(hits, scores, explain, n).len() == if explain {
            2 * n
        } else {
            n
        },
    decreases n,
{
    if n > 0 {
        lemma_line_count(hits, scores, explain, n - 1);
    }
}

/// Behind an answer with citations stand an empty line, a heading and a line for
/// each citation, in order, with its marker and its source; behind one without,
/// nothing but the end of its line.
pub proof fn law_sources_are_printed(answer: Answer)
    ensures
        source_text(None) == seq![""@],
        answer.citations@.len() == 0 ==> source_text(Some(answer)) == seq![""@],
        answer.citations@.len() > 0 ==> {
            let lines = source_text(Some(answer));
            &&& lines.len() == 3 + answer.citations@.len()
            &&& lines[0] == ""@ && lines[1] == ""@ && lines[2] == "Sources:"@
            &&& forall|i: int|
                0 <= i < answer.citations@.len() ==> lines[3 + i] == "  "@ + (
                #[trigger] answer.citations@[i]).marker@ + " "@ + answer.citations@[i].source@
        },
{
}

/// The status names the workspace, the numbers of documents, chunks and
/// collections, and every collection with its path, in order.
pub proof fn law_status_is_printed(workspace: Seq<char>, s: EngineStatus)
    ensures
        ({
            let lines = status_text(workspace, s);
            &&& lines.len() == 4 + s.collections@.len()
            &&& lines[0] == "Workspace: "@ + workspace
            &&& lines[1] == "Documents: "@ + text::decimal(s.documents as nat)
            &&& lines[2] == "Chunks: "@ + text::decimal(s.chunks as nat)
            &&& lines[3] == "Collections: "@ + text::decimal(s.collections@.len())
            &&& forall|i: int|
                0 <= i < s.collections@.len() ==> lines[4 + i] == "  "@ + (
                #[trigger] s.collections@[i]).name@ + " -> "@ + s.collections@[i].path@
        }),
{
    let lines = status_text(workspace, s);
    assert forall|i: int| 0 <= i < s.collections@.len() implies lines[4 + i] == "  "@ + (
    #[trigger] s.collections@[i]).name@ + " -> "@ + s.collections@[i].path@ by {
        assert(lines[4 + i] == collection_line(s.collections@[i]));
    }
}

/// The line of an index run has the files and chunks that were indexed, the files
/// that were skipped and those that were removed, in this order.
pub proof fn law_index_run_is_printed(s: IndexStats)
    ensures
        index_text(s) == "Indexed "@ + text::decimal(s.files_indexed as nat) + " files ("@
            + text::decimal(s.chunks_indexed as nat) + " chunks, "@ + text::decimal(
            s.files_skipped as nat,
        ) + " skipped, "@ + text::decimal(s.files_removed as nat) + " removed)"@,
{
}

} // verus!
