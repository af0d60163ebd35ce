//! The hybrid search pipeline, as a state machine.
//!
//! [`Search`] decides what happens next; the caller performs it and hands back
//! what came of it. The clock is a reading in nanoseconds that the caller
//! passes along.

use vstd::prelude::*;

use crate::error::{DocqError, EmbedError, Result};
use crate::fusion;
use crate::fusion::FusionEntry;
use crate::models::{
    Chunk, ScoredChunk, ScoredId, SearchEvent, SearchHit, SearchStage, SearchStats,
};
use crate::ranking;
use crate::retriever;
use crate::retriever::{DocumentPath, StageRankings};
use crate::score::Score;
use crate::text;

verus! {

/// How deep the search looks.
#[derive(Debug, Clone, Copy, PartialEq, Eq, Structural)]
pub struct RetrieverConfig {
    /// Keyword recall depth (default 100).
    pub bm25_top_k: usize,
    /// Vector recall depth (default 100).
    pub vector_top_k: usize,
    /// Smoothing constant of the fusion (default 60).
    pub rrf_k: usize,
    /// Number of fused results to rerank (default 20).
    pub rerank_top_n: usize,
    /// Whether there is a reranker.
    pub reranks: bool,
}

/// The milliseconds between two readings of the clock.
pub open spec fn millis_between(since: u64, now: u64) -> u64 {
    if since <= now {
        ((now - since) / 1_000_000) as u64
    } else {
        0
    }
}

pub(crate) fn elapsed_ms(since: u64, now: u64) -> (r: u64)
    ensures
        r == millis_between(since, now),
{
    if since <= now {
        (now - since) / 1_000_000
    } else {
        0
    }
}

// ---- recall ----

/// What one recall channel found, with the time that its stages took. A channel
/// fills only the times that it measures.
#[derive(Debug)]
pub struct RecallResult {
    pub hits: Vec<ScoredId>,
    pub bm25_ms: u64,
    pub embed_ms: u64,
    pub vector_ms: u64,
}

/// One recall channel.
pub enum Recall {
    /// Keyword recall, not started.
    Bm25 { query: String, top_k: usize },
    AnnouncingBm25 { query: String, top_k: usize },
    Segmenting { top_k: usize, since: u64 },
    SearchingText { since: u64 },
    /// Vector recall, not started.
    Vector { query: String, top_k: usize },
    AnnouncingEmbed { query: String, top_k: usize },
    Embedding { top_k: usize, since: u64 },
    ReportingEmbed { embedding: Vec<u32>, top_k: usize, embed_ms: u64 },
    AnnouncingVector { embedding: Vec<u32>, top_k: usize, embed_ms: u64 },
    SearchingVectors { embed_ms: u64, since: u64 },
    Reporting { result: RecallResult },
    Done,
}

/// What came of the last action of a recall channel.
pub enum RecallInput {
    Start,
    /// The event went out, or the consumer is gone.
    Sent,
    /// The query, split into words.
    Segmented(String),
    Found(Result<Vec<ScoredId>>),
    /// One vector for each text, as bits of single-precision numbers.
    Embedded(Result<Vec<Vec<u32>>>),
}

/// What a recall channel wants done.
pub enum RecallAction {
    Send(SearchEvent),
    /// Split the query into words.
    Segment(String),
    SearchText { query: String, top_k: usize },
    Embed(String),
    SearchVectors { embedding: Vec<u32>, top_k: usize },
    Return(Result<RecallResult>),
    Stop,
}

pub open spec fn starts(action: RecallAction, stage: SearchStage) -> bool {
    action == RecallAction::Send(SearchEvent::StageStarted { stage })
}

pub open spec fn finishes(action: RecallAction, stage: SearchStage, elapsed_ms: u64) -> bool {
    action == RecallAction::Send(SearchEvent::StageFinished { stage, elapsed_ms })
}

/// Whether `after` and `action` are what a recall channel does on `input`.
pub open spec fn recall_steps(
    before: Recall,
    input: RecallInput,
    now: u64,
    after: Recall,
    action: RecallAction,
) -> bool {
    match (before, input) {
        (Recall::Bm25 { query, top_k }, RecallInput::Start) => {
            &&& after == (Recall::AnnouncingBm25 { query, top_k })
            &&& starts(action, SearchStage::Bm25Recall)
        },
        (Recall::AnnouncingBm25 { query, top_k }, RecallInput::Sent) => {
            &&& after == (Recall::Segmenting { top_k, since: now })
            &&& action == RecallAction::Segment(query)
        },
        (Recall::Segmenting { top_k, since }, RecallInput::Segmented(words)) => {
            &&& after == (Recall::SearchingText { since })
            &&& action matches RecallAction::SearchText { query: q, top_k: k }
            &&& q@ == retriever::sanitized(words@)
            &&& k == top_k
        },
        (Recall::SearchingText { since }, RecallInput::Found(Ok(hits))) => {
            let ms = millis_between(since, now);
            &&& after == (Recall::Reporting {
                result: RecallResult { hits, bm25_ms: ms, embed_ms: 0, vector_ms: 0 },
            })
            &&& finishes(action, SearchStage::Bm25Recall, ms)
        },
        (Recall::Vector { query, top_k }, RecallInput::Start) => {
            &&& after == (Recall::AnnouncingEmbed { query, top_k })
            &&& starts(action, SearchStage::EmbedQuery)
        },
        (Recall::AnnouncingEmbed { query, top_k }, RecallInput::Sent) => {
            &&& after == (Recall::Embedding { top_k, since: now })
            &&& action == RecallAction::Embed(query)
        },
        (Recall::Embedding { top_k, since }, RecallInput::Embedded(Ok(vectors))) => {
            let ms = millis_between(since, now);
            if vectors@.len() == 0 {
                &&& after == Recall::Done
                &&& action == RecallAction::Return(Err(DocqError::Embed(EmbedError::EmptyResult)))
            } else {
                &&& after matches Recall::ReportingEmbed { embedding: e, top_k: k, embed_ms: m }
                &&& e@ == vectors@[0]@
                &&& k == top_k
                &&& m == ms
                &&& finishes(action, SearchStage::EmbedQuery, ms)
            }
        },
        (Recall::ReportingEmbed { embedding, top_k, embed_ms }, RecallInput::Sent) => {
            &&& after == (Recall::AnnouncingVector { embedding, top_k, embed_ms })
            &&& starts(action, SearchStage::VectorRecall)
        },
        (Recall::AnnouncingVector { embedding, top_k, embed_ms }, RecallInput::Sent) => {
            &&& after == (Recall::SearchingVectors { embed_ms, since: now })
            &&& action == (RecallAction::SearchVectors { embedding, top_k })
        },
        (Recall::SearchingVectors { embed_ms, since }, RecallInput::Found(Ok(hits))) => {
            let ms = millis_between(since, now);
            &&& after == (Recall::Reporting {
                result: RecallResult { hits, bm25_ms: 0, embed_ms, vector_ms: ms },
            })
            &&& finishes(action, SearchStage::VectorRecall, ms)
        },
        (Recall::SearchingText { .. }, RecallInput::Found(Err(e))) => {
            after == Recall::Done && action == RecallAction::Return(Err(e))
        },
        (Recall::SearchingVectors { .. }, RecallInput::Found(Err(e))) => {
            after == Recall::Done && action == RecallAction::Return(Err(e))
        },
        (Recall::Embedding { .. }, RecallInput::Embedded(Err(e))) => {
            after == Recall::Done && action == RecallAction::Return(Err(e))
        },
        (Recall::Reporting { result }, RecallInput::Sent) => {
            after == Recall::Done && action == RecallAction::Return(Ok(result))
        },
        _ => after == Recall::Done && action == RecallAction::Stop,
    }
}

impl Recall {
    /// Takes the next step. An input that the channel does not wait for ends
    /// it.
    pub fn next(self, input: RecallInput, now: u64) -> (r: (Recall, RecallAction))
        ensures
            recall_steps(self, input, now, r.0, r.1),
    {
        match (self, input) {
            (Recall::Bm25 { query, top_k }, RecallInput::Start) => (
                Recall::AnnouncingBm25 { query, top_k },
                RecallAction::Send(SearchEvent::StageStarted { stage: SearchStage::Bm25Recall }),
            ),
            (Recall::AnnouncingBm25 { query, top_k }, RecallInput::Sent) => (
                Recall::Segmenting { top_k, since: now },
                RecallAction::Segment(query),
            ),
            (Recall::Segmenting { top_k, since }, RecallInput::Segmented(words)) => (
                Recall::SearchingText { since },
                RecallAction::SearchText {
                    query: retriever::sanitize_fts5_query(words.as_str()),
                    top_k,
                },
            ),
            (Recall::SearchingText { since }, RecallInput::Found(found)) => match found {
                Ok(hits) => {
                    let ms: u64 = elapsed_ms(since, now);
                    (
                        Recall::Reporting {
                            result: RecallResult { hits, bm25_ms: ms, embed_ms: 0, vector_ms: 0 },
                        },
                        RecallAction::Send(
                            SearchEvent::StageFinished {
                                stage: SearchStage::Bm25Recall,
                                elapsed_ms: ms,
                            },
                        ),
                    )
                },
                Err(e) => (Recall::Done, RecallAction::Return(Err(e))),
            },
            (Recall::Vector { query, top_k }, RecallInput::Start) => (
                Recall::AnnouncingEmbed { query, top_k },
                RecallAction::Send(SearchEvent::StageStarted { stage: SearchStage::EmbedQuery }),
            ),
            (Recall::AnnouncingEmbed { query, top_k }, RecallInput::Sent) => (
                Recall::Embedding { top_k, since: now },
                RecallAction::Embed(query),
            ),
            (Recall::Embedding { top_k, since }, RecallInput::Embedded(embedded)) => match embedded {
                Ok(vectors) => {
                    let ms: u64 = elapsed_ms(since, now);
                    if vectors.len() == 0 {
                        (
                            Recall::Done,
                            RecallAction::Return(Err(DocqError::Embed(EmbedError::EmptyResult))),
                        )
                    } else {
                        let embedding = vectors[0].clone();
                        assert(embedding@ =~= vectors@[0]@);
                        (
                            Recall::ReportingEmbed { embedding, top_k, embed_ms: ms },
                            RecallAction::Send(
                                SearchEvent::StageFinished {
                                    stage: SearchStage::EmbedQuery,
                                    elapsed_ms: ms,
                                },
                            ),
                        )
                    }
                },
                Err(e) => (Recall::Done, RecallAction::Return(Err(e))),
            },
            (Recall::ReportingEmbed { embedding, top_k, embed_ms }, RecallInput::Sent) => (
                Recall::AnnouncingVector { embedding, top_k, embed_ms },
                RecallAction::Send(SearchEvent::StageStarted { stage: SearchStage::VectorRecall }),
            ),
            (Recall::AnnouncingVector { embedding, top_k, embed_ms }, RecallInput::Sent) => (
                Recall::SearchingVectors { embed_ms, since: now },
                RecallAction::SearchVectors { embedding, top_k },
            ),
            (Recall::SearchingVectors { embed_ms, since }, RecallInput::Found(found)) => match found {
                Ok(hits) => {
                    let ms: u64 = elapsed_ms(since, now);
                    (
                        Recall::Reporting {
                            result: RecallResult { hits, bm25_ms: 0, embed_ms, vector_ms: ms },
                        },
                        RecallAction::Send(
                            SearchEvent::StageFinished {
                                stage: SearchStage::VectorRecall,
                                elapsed_ms: ms,
                            },
                        ),
                    )
                },
                Err(e) => (Recall::Done, RecallAction::Return(Err(e))),
            },
            (Recall::Reporting { result }, RecallInput::Sent) => (
                Recall::Done,
                RecallAction::Return(Ok(result)),
            ),
            _ => (Recall::Done, RecallAction::Stop),
        }
    }
}

// ---- the pipeline ----

/// What a search run carries along.
pub struct Run {
    pub query: String,
    pub top_k: usize,
    pub config: RetrieverConfig,
    pub started: u64,
    pub stats: SearchStats,
}

/// What the two recall channels found.
pub struct Recalls {
    pub bm25: Vec<ScoredId>,
    pub vector: Vec<ScoredId>,
}

/// The candidates that were looked up, in their final order, with the scores
/// that led there.
pub struct Selection {
    pub rankings: StageRankings,
    pub chunks: Vec<Chunk>,
    pub ordered: Vec<String>,
}

/// The state of a search. The variants say what the search waits for.
pub enum Search {
    Ready { query: String, top_k: usize, config: RetrieverConfig },
    Recalling { run: Run },
    AnnouncingFusion { run: Run, recalls: Recalls },
    Fusing { run: Run, recalls: Recalls, ids: Vec<String>, since: u64 },
    ReportingFusion { run: Run, recalls: Recalls, fused: Vec<ScoredId> },
    AnnouncingRerank { run: Run, recalls: Recalls, fused: Vec<ScoredId> },
    FetchingChunks {
        run: Run,
        recalls: Recalls,
        fused: Vec<ScoredId>,
        ids: Vec<String>,
        since: u64,
    },
    Reranking {
        run: Run,
        recalls: Recalls,
        fused: Vec<ScoredId>,
        ids: Vec<String>,
        chunks: Vec<Chunk>,
        since: u64,
    },
    ReportingRerank { run: Run, selection: Selection },
    AnnouncingPaths { run: Run, selection: Selection },
    FetchingPaths { run: Run, selection: Selection },
    ReportingPaths { run: Run, selection: Selection, paths: Vec<DocumentPath> },
    AnnouncingAssembly { run: Run, selection: Selection, paths: Vec<DocumentPath> },
    Assembling { run: Run, hits: Vec<SearchHit>, since: u64 },
    ReportingAssembly { run: Run, hits: Vec<SearchHit> },
    Completing,
    Stopped,
}

/// What came of the last action of a search.
pub enum SearchInput {
    Start,
    /// Whether the event went out; it did not where the consumer is gone.
    Sent(bool),
    Recalled { bm25: Result<RecallResult>, vector: Result<RecallResult> },
    /// The fused score of each candidate.
    Fused(Vec<Score>),
    Chunks(Result<Vec<Chunk>>),
    Reranked(Result<Vec<ScoredChunk>>),
    Paths(Result<Vec<DocumentPath>>),
    /// Nothing but the time.
    Tick,
}

/// What a search wants done.
pub enum SearchAction {
    /// Run both recall channels, at the same time.
    Recall { query: String, bm25_top_k: usize, vector_top_k: usize },
    Send(SearchEvent),
    /// Sum up the fused score of each candidate.
    Fuse { candidates: Vec<FusionEntry>, rrf_k: usize },
    FetchChunks(Vec<String>),
    Rerank { query: String, chunks: Vec<Chunk> },
    FetchPaths(Vec<String>),
    ReadClock,
    Stop,
    Fail(DocqError),
}

pub open spec fn announces(action: SearchAction, stage: SearchStage) -> bool {
    action == SearchAction::Send(SearchEvent::StageStarted { stage })
}

pub open spec fn reports(action: SearchAction, stage: SearchStage, elapsed_ms: u64) -> bool {
    action == SearchAction::Send(SearchEvent::StageFinished { stage, elapsed_ms })
}

/// Whether `action` is to send the final event with the given hits and times.
pub open spec fn completes(
    action: SearchAction,
    hits: Seq<retriever::HitView>,
    stats: SearchStats,
) -> bool {
    &&& action matches SearchAction::Send(SearchEvent::Completed { hits: h, stats: s })
    &&& retriever::hit_views(h@) == hits
    &&& s == stats
}

pub open spec fn stops(after: Search, action: SearchAction) -> bool {
    after == Search::Stopped && action == SearchAction::Stop
}

pub open spec fn fails(after: Search, action: SearchAction, e: DocqError) -> bool {
    after == Search::Stopped && action == SearchAction::Fail(e)
}

/// How many of the fused candidates are looked up.
pub open spec fn lookup_depth(run: Run) -> usize {
    if run.config.reranks {
        run.config.rerank_top_n
    } else {
        run.top_k
    }
}

pub open spec fn with_total(stats: SearchStats, ms: u64) -> SearchStats {
    SearchStats { total_ms: ms, ..stats }
}

/// Whether `after` is the selection without reranking: the fused order as it
/// is.
pub open spec fn selects_fused(
    selection: Selection,
    recalls: Recalls,
    fused: Vec<ScoredId>,
    chunks: Vec<Chunk>,
) -> bool {
    &&& selection.rankings.bm25 == recalls.bm25
    &&& selection.rankings.vector == recalls.vector
    &&& selection.rankings.rrf == fused
    &&& selection.rankings.rerank@.len() == 0
    &&& selection.chunks == chunks
    &&& text::views(selection.ordered@) == retriever::ids_of(fused@)
}

/// Whether `selection` is the selection after reranking: the candidates in the
/// order of their reranker scores.
pub open spec fn selects_reranked(
    selection: Selection,
    recalls: Recalls,
    fused: Vec<ScoredId>,
    chunks: Vec<Chunk>,
    ids: Seq<Seq<char>>,
    scored: Seq<ScoredChunk>,
) -> bool {
    let scores = retriever::rerank_scores(scored);
    &&& selection.rankings.bm25 == recalls.bm25
    &&& selection.rankings.vector == recalls.vector
    &&& selection.rankings.rrf == fused
    &&& selection.rankings.rerank@ == scores
    &&& selection.chunks == chunks
    &&& retriever::is_reranked(
        ids,
        ranking::score_map(scores),
        text::views(selection.ordered@),
    )
}

/// The hits that a selection gives.
pub open spec fn selected_hits(
    selection: Selection,
    paths: Seq<DocumentPath>,
    top_k: usize,
) -> Seq<retriever::HitView> {
    retriever::hits_for(
        text::views(selection.ordered@).take(
            retriever::at_most(selection.ordered@.len(), top_k),
        ),
        retriever::chunk_map(selection.chunks@),
        retriever::path_map(paths),
        selection.rankings@,
    )
}

/// The state and the action of a search after `input`.
pub open spec fn search_steps(
    before: Search,
    input: SearchInput,
    now: u64,
    after: Search,
    action: SearchAction,
) -> bool {
    match (before, input) {
        (Search::Ready { query, top_k, config }, SearchInput::Start) => {
            if text::blank(query@) {
                &&& after == Search::Completing
                &&& completes(action, Seq::empty(), crate::models::no_stats())
            } else {
                &&& after == (Search::Recalling {
                    run: Run { query, top_k, config, started: now, stats: crate::models::no_stats() },
                })
                &&& action matches SearchAction::Recall { query: q, bm25_top_k: b, vector_top_k: v }
                &&& q@ == query@
                &&& b == config.bm25_top_k
                &&& v == config.vector_top_k
            }
        },
        (Search::Recalling { run }, SearchInput::Recalled { bm25, vector }) => {
            match (bm25, vector) {
                (Ok(b), Ok(v)) => {
                    let stats = SearchStats {
                        bm25_ms: b.bm25_ms,
                        embed_ms: v.embed_ms,
                        vector_ms: v.vector_ms,
                        ..run.stats
                    };
                    &&& after == (Search::AnnouncingFusion {
                        run: Run { stats, ..run },
                        recalls: Recalls { bm25: b.hits, vector: v.hits },
                    })
                    &&& announces(action, SearchStage::Fusion)
                },
                (Err(e), _) => fails(after, action, e),
                (_, Err(e)) => fails(after, action, e),
            }
        },
        (Search::AnnouncingFusion { run, recalls }, SearchInput::Sent(true)) => {
            let found = fusion::candidates(
                retriever::ids_of(recalls.bm25@),
                retriever::ids_of(recalls.vector@),
            );
            &&& after matches Search::Fusing { run: r, recalls: c, ids, since }
            &&& r == run
            &&& c == recalls
            &&& text::views(ids@) == found.map_values(|e: fusion::FusionView| e.id)
            &&& since == now
            &&& action matches SearchAction::Fuse { candidates, rrf_k }
            &&& fusion::entry_views(candidates@) == found
            &&& rrf_k == run.config.rrf_k
        },
        (Search::Fusing { run, recalls, ids, since }, SearchInput::Fused(scores)) => {
            if scores@.len() != ids@.len() {
                stops(after, action)
            } else {
                let ms = millis_between(since, now);
                &&& after matches Search::ReportingFusion { run: r, recalls: c, fused }
                &&& r == (Run { stats: SearchStats { fusion_ms: ms, ..run.stats }, ..run })
                &&& c == recalls
                &&& fusion::is_fused(text::views(ids@), scores@, fusion::scored_views(fused@))
                &&& reports(action, SearchStage::Fusion, ms)
            }
        },
        (Search::ReportingFusion { run, recalls, fused }, SearchInput::Sent(true)) => {
            if fused@.len() == 0 {
                &&& after == Search::Completing
                &&& completes(
                    action,
                    Seq::empty(),
                    with_total(run.stats, millis_between(run.started, now)),
                )
            } else {
                &&& after == (Search::AnnouncingRerank { run, recalls, fused })
                &&& announces(action, SearchStage::Rerank)
            }
        },
        (Search::AnnouncingRerank { run, recalls, fused }, SearchInput::Sent(true)) => {
            let wanted = retriever::ids_of(fused@).take(
                retriever::at_most(fused@.len(), lookup_depth(run)),
            );
            &&& after matches Search::FetchingChunks { run: r, recalls: c, fused: f, ids, since }
            &&& r == run
            &&& c == recalls
            &&& f == fused
            &&& text::views(ids@) == wanted
            &&& since == now
            &&& action matches SearchAction::FetchChunks(asked)
            &&& text::views(asked@) == wanted
        },
        (
            Search::FetchingChunks { run, recalls, fused, ids, since },
            SearchInput::Chunks(Ok(chunks)),
        ) => {
            if run.config.reranks {
                &&& after == (Search::Reranking { run, recalls, fused, ids, chunks, since })
                &&& action matches SearchAction::Rerank { query, chunks: asked }
                &&& query@ == run.query@
                &&& asked@ == retriever::known_chunks(
                    text::views(ids@),
                    retriever::chunk_map(chunks@),
                )
            } else {
                let ms = millis_between(since, now);
                &&& after matches Search::ReportingRerank { run: r, selection }
                &&& r == (Run { stats: SearchStats { rerank_ms: ms, ..run.stats }, ..run })
                &&& selects_fused(selection, recalls, fused, chunks)
                &&& reports(action, SearchStage::Rerank, ms)
            }
        },
        (
            Search::Reranking { run, recalls, fused, ids, chunks, since },
            SearchInput::Reranked(Ok(scored)),
        ) => {
            let ms = millis_between(since, now);
            &&& after matches Search::ReportingRerank { run: r, selection }
            &&& r == (Run { stats: SearchStats { rerank_ms: ms, ..run.stats }, ..run })
            &&& selects_reranked(selection, recalls, fused, chunks, text::views(ids@), scored@)
            &&& reports(action, SearchStage::Rerank, ms)
        },
        (Search::ReportingRerank { run, selection }, SearchInput::Sent(true)) => {
            &&& after == (Search::AnnouncingPaths { run, selection })
            &&& announces(action, SearchStage::ResolvePaths)
        },
        (Search::AnnouncingPaths { run, selection }, SearchInput::Sent(true)) => {
            &&& after == (Search::FetchingPaths { run, selection })
            &&& action matches SearchAction::FetchPaths(asked)
            &&& text::views(asked@) == retriever::distinct(
                retriever::doc_ids_of(selection.chunks@),
            )
        },
        (Search::FetchingPaths { run, selection }, SearchInput::Paths(Ok(paths))) => {
            &&& after == (Search::ReportingPaths { run, selection, paths })
            &&& reports(action, SearchStage::ResolvePaths, 0)
        },
        (Search::ReportingPaths { run, selection, paths }, SearchInput::Sent(_)) => {
            &&& after == (Search::AnnouncingAssembly { run, selection, paths })
            &&& announces(action, SearchStage::Assemble)
        },
        (Search::AnnouncingAssembly { run, selection, paths }, SearchInput::Sent(true)) => {
            &&& after matches Search::Assembling { run: r, hits, since }
            &&& r == run
            &&& retriever::hit_views(hits@) == selected_hits(selection, paths@, run.top_k)
            &&& since == now
            &&& action == SearchAction::ReadClock
        },
        (Search::Assembling { run, hits, since }, SearchInput::Tick) => {
            &&& after == (Search::ReportingAssembly { run, hits })
            &&& reports(action, SearchStage::Assemble, millis_between(since, now))
        },
        (Search::ReportingAssembly { run, hits }, SearchInput::Sent(true)) => {
            &&& after == Search::Completing
            &&& completes(
                action,
                retriever::hit_views(hits@),
                with_total(run.stats, millis_between(run.started, now)),
            )
        },
        (Search::FetchingChunks { .. }, SearchInput::Chunks(Err(e))) => fails(after, action, e),
        (Search::Reranking { .. }, SearchInput::Reranked(Err(e))) => fails(after, action, e),
        (Search::FetchingPaths { .. }, SearchInput::Paths(Err(e))) => fails(after, action, e),
        _ => stops(after, action),
    }
}

fn started(stage: SearchStage) -> (r: SearchAction)
    ensures
        announces(r, stage),
{
    SearchAction::Send(SearchEvent::StageStarted { stage })
}

fn finished(stage: SearchStage, elapsed_ms: u64) -> (r: SearchAction)
    ensures
        reports(r, stage, elapsed_ms),
{
    SearchAction::Send(SearchEvent::StageFinished { stage, elapsed_ms })
}

fn completed(hits: Vec<SearchHit>, stats: SearchStats) -> (r: SearchAction)
    ensures
        completes(r, retriever::hit_views(hits@), stats),
{
    SearchAction::Send(SearchEvent::Completed { hits, stats })
}

fn entry_ids(list: &Vec<FusionEntry>) -> (r: Vec<String>)
    ensures
        text::views(r@) == fusion::entry_views(list@).map_values(|e: fusion::FusionView| e.id),
{
    let ghost all = fusion::entry_views(list@).map_values(|e: fusion::FusionView| e.id);
    let mut out: Vec<String> = Vec::new();
    let mut i: usize = 0;
    while i < list.len()
        invariant
            i <= list@.len(),
            all == fusion::entry_views(list@).map_values(|e: fusion::FusionView| e.id),
            text::views(out@) == all.take(i as int),
        decreases list@.len() - i,
    {
        let ghost before = text::views(out@);
        out.push(list[i].id.clone());
        assert(text::views(out@) =~= before.push(all[i as int]));
        assert(text::views(out@) =~= all.take(i + 1));
        i += 1;
    }
    assert(text::views(out@) =~= all);
    out
}

impl Search {
    /// A search that has not started.
    pub fn new(query: String, top_k: usize, config: RetrieverConfig) -> (r: Search)
        ensures
            r == (Search::Ready { query, top_k, config }),
    {
        Search::Ready { query, top_k, config }
    }

    /// Takes the next step. A search ends where the consumer is gone, and on an
    /// input that it does not wait for.
    pub fn next(self, input: SearchInput, now: u64) -> (r: (Search, SearchAction))
        ensures
            search_steps(self, input, now, r.0, r.1),
    {
        match (self, input) {
            (Search::Ready { query, top_k, config }, SearchInput::Start) => {
                if text::is_blank(query.as_str()) {
                    let hits: Vec<SearchHit> = Vec::new();
                    assert(retriever::hit_views(hits@) =~= Seq::empty());
                    (Search::Completing, completed(hits, SearchStats::default()))
                } else {
                    let action = SearchAction::Recall {
                        query: query.clone(),
                        bm25_top_k: config.bm25_top_k,
                        vector_top_k: config.vector_top_k,
                    };
                    let run = Run {
                        query,
                        top_k,
                        config,
                        started: now,
                        stats: SearchStats::default(),
                    };
                    (Search::Recalling { run }, action)
                }
            },
            (Search::Recalling { run }, SearchInput::Recalled { bm25, vector }) => match bm25 {
                Err(e) => (Search::Stopped, SearchAction::Fail(e)),
                Ok(b) => match vector {
                    Err(e) => (Search::Stopped, SearchAction::Fail(e)),
                    Ok(v) => {
                        let stats = SearchStats {
                            total_ms: run.stats.total_ms,
                            embed_ms: v.embed_ms,
                            bm25_ms: b.bm25_ms,
                            vector_ms: v.vector_ms,
                            fusion_ms: run.stats.fusion_ms,
                            rerank_ms: run.stats.rerank_ms,
                        };
                        (
                            Search::AnnouncingFusion {
                                run: Run { stats, ..run },
                                recalls: Recalls { bm25: b.hits, vector: v.hits },
                            },
                            started(SearchStage::Fusion),
                        )
                    },
                },
            },
            (Search::AnnouncingFusion { run, recalls }, SearchInput::Sent(true)) => {
                let candidates = fusion::collect_candidates(&recalls.bm25, &recalls.vector);
                let ids = entry_ids(&candidates);
                let rrf_k: usize = run.config.rrf_k;
                (
                    Search::Fusing { run, recalls, ids, since: now },
                    SearchAction::Fuse { candidates, rrf_k },
                )
            },
            (Search::Fusing { run, recalls, ids, since }, SearchInput::Fused(scores)) => {
                if scores.len() != ids.len() {
                    (Search::Stopped, SearchAction::Stop)
                } else {
                    let fused = fusion::order_fused(&ids, &scores);
                    let ms: u64 = elapsed_ms(since, now);
                    let stats = SearchStats { fusion_ms: ms, ..run.stats };
                    (
                        Search::ReportingFusion { run: Run { stats, ..run }, recalls, fused },
                        finished(SearchStage::Fusion, ms),
                    )
                }
            },
            (Search::ReportingFusion { run, recalls, fused }, SearchInput::Sent(true)) => {
                if fused.len() == 0 {
                    let stats = SearchStats {
                        total_ms: elapsed_ms(run.started, now),
                        ..run.stats
                    };
                    let hits: Vec<SearchHit> = Vec::new();
                    assert(retriever::hit_views(hits@) =~= Seq::empty());
                    (Search::Completing, completed(hits, stats))
                } else {
                    (Search::AnnouncingRerank { run, recalls, fused }, started(SearchStage::Rerank))
                }
            },
            (Search::AnnouncingRerank { run, recalls, fused }, SearchInput::Sent(true)) => {
                let depth: usize = if run.config.reranks {
                    run.config.rerank_top_n
                } else {
                    run.top_k
                };
                let ids = retriever::top_ids(&fused, depth);
                let asked = retriever::top_ids(&fused, depth);
                (
                    Search::FetchingChunks { run, recalls, fused, ids, since: now },
                    SearchAction::FetchChunks(asked),
                )
            },
            (
                Search::FetchingChunks { run, recalls, fused, ids, since },
                SearchInput::Chunks(found),
            ) => match found {
                Err(e) => (Search::Stopped, SearchAction::Fail(e)),
                Ok(chunks) => {
                    if run.config.reranks {
                        let asked = retriever::chunks_in_order(&ids, &chunks);
                        let query = run.query.clone();
                        (
                            Search::Reranking { run, recalls, fused, ids, chunks, since },
                            SearchAction::Rerank { query, chunks: asked },
                        )
                    } else {
                        let ordered = retriever::top_ids(&fused, fused.len());
                        assert(retriever::ids_of(fused@).take(fused@.len() as int)
                            =~= retriever::ids_of(fused@));
                        let ms: u64 = elapsed_ms(since, now);
                        let stats = SearchStats { rerank_ms: ms, ..run.stats };
                        let selection = Selection {
                            rankings: StageRankings {
                                bm25: recalls.bm25,
                                vector: recalls.vector,
                                rrf: fused,
                                rerank: Vec::new(),
                            },
                            chunks,
                            ordered,
                        };
                        (
                            Search::ReportingRerank { run: Run { stats, ..run }, selection },
                            finished(SearchStage::Rerank, ms),
                        )
                    }
                },
            },
            (
                Search::Reranking { run, recalls, fused, ids, chunks, since },
                SearchInput::Reranked(reranked),
            ) => match reranked {
                Err(e) => (Search::Stopped, SearchAction::Fail(e)),
                Ok(scored) => {
                    let scores = retriever::scores_by_id(&scored);
                    let ordered = retriever::rerank_order(&ids, &scores);
                    let ms: u64 = elapsed_ms(since, now);
                    let stats = SearchStats { rerank_ms: ms, ..run.stats };
                    let selection = Selection {
                        rankings: StageRankings {
                            bm25: recalls.bm25,
                            vector: recalls.vector,
                            rrf: fused,
                            rerank: scores,
                        },
                        chunks,
                        ordered,
                    };
                    (
                        Search::ReportingRerank { run: Run { stats, ..run }, selection },
                        finished(SearchStage::Rerank, ms),
                    )
                },
            },
            (Search::ReportingRerank { run, selection }, SearchInput::Sent(true)) => (
                Search::AnnouncingPaths { run, selection },
                started(SearchStage::ResolvePaths),
            ),
            (Search::AnnouncingPaths { run, selection }, SearchInput::Sent(true)) => {
                let asked = retriever::documents_of(&selection.chunks);
                (Search::FetchingPaths { run, selection }, SearchAction::FetchPaths(asked))
            },
            (Search::FetchingPaths { run, selection }, SearchInput::Paths(found)) => match found {
                Err(e) => (Search::Stopped, SearchAction::Fail(e)),
                Ok(paths) => (
                    Search::ReportingPaths { run, selection, paths },
                    finished(SearchStage::ResolvePaths, 0),
                ),
            },
            (Search::ReportingPaths { run, selection, paths }, SearchInput::Sent(_)) => (
                Search::AnnouncingAssembly { run, selection, paths },
                started(SearchStage::Assemble),
            ),
            (Search::AnnouncingAssembly { run, selection, paths }, SearchInput::Sent(true)) => {
                let hits = retriever::assemble_hits(
                    &selection.ordered,
                    run.top_k,
                    &selection.chunks,
                    &paths,
                    &selection.rankings,
                );
                (Search::Assembling { run, hits, since: now }, SearchAction::ReadClock)
            },
            (Search::Assembling { run, hits, since }, SearchInput::Tick) => {
                let ms: u64 = elapsed_ms(since, now);
                (Search::ReportingAssembly { run, hits }, finished(SearchStage::Assemble, ms))
            },
            (Search::ReportingAssembly { run, hits }, SearchInput::Sent(true)) => {
                let stats = SearchStats { total_ms: elapsed_ms(run.started, now), ..run.stats };
                (Search::Completing, completed(hits, stats))
            },
            _ => (Search::Stopped, SearchAction::Stop),
        }
    }
}

// ---- what a search guarantees ----

/// The stage that was announced and has not been reported yet.
pub open spec fn open_stage(state: Search) -> Option<SearchStage> {
    match state {
        Search::AnnouncingFusion { .. } | Search::Fusing { .. } => Some(SearchStage::Fusion),
        Search::AnnouncingRerank { .. }
        | Search::FetchingChunks { .. }
        | Search::Reranking { .. } => Some(SearchStage::Rerank),
        Search::AnnouncingPaths { .. } | Search::FetchingPaths { .. } => Some(
            SearchStage::ResolvePaths,
        ),
        Search::AnnouncingAssembly { .. } | Search::Assembling { .. } => Some(
            SearchStage::Assemble,
        ),
        _ => None,
    }
}

/// Stages do not overlap, and each one that is reported was announced: a stage
/// starts only where none is open, only the open stage finishes, and the search
/// completes only where none is open.
pub proof fn law_stages_are_paired(
    before: Search,
    input: SearchInput,
    now: u64,
    after: Search,
    action: SearchAction,
)
    requires
        search_steps(before, input, now, after, action),
    ensures
        match action {
            SearchAction::Send(SearchEvent::StageStarted { stage }) => open_stage(before) is None
                && open_stage(after) == Some(stage),
            SearchAction::Send(SearchEvent::StageFinished { stage, .. }) => open_stage(before)
                == Some(stage) && open_stage(after) is None,
            SearchAction::Send(SearchEvent::Completed { .. }) => open_stage(before) is None
                && open_stage(after) is None,
            SearchAction::Stop => open_stage(after) is None,
            SearchAction::Fail(_) => open_stage(after) is None,
            _ => open_stage(after) == open_stage(before),
        },
{
}

/// How many steps are left at most.
pub open spec fn steps_left(state: Search) -> nat {
    match state {
        Search::Ready { .. } => 16,
        Search::Recalling { .. } => 15,
        Search::AnnouncingFusion { .. } => 14,
        Search::Fusing { .. } => 13,
        Search::ReportingFusion { .. } => 12,
        Search::AnnouncingRerank { .. } => 11,
        Search::FetchingChunks { .. } => 10,
        Search::Reranking { .. } => 9,
        Search::ReportingRerank { .. } => 8,
        Search::AnnouncingPaths { .. } => 7,
        Search::FetchingPaths { .. } => 6,
        Search::ReportingPaths { .. } => 5,
        Search::AnnouncingAssembly { .. } => 4,
        Search::Assembling { .. } => 3,
        Search::ReportingAssembly { .. } => 2,
        Search::Completing => 1,
        Search::Stopped => 0,
    }
}

/// A search ends: each step leaves fewer steps, until it has stopped.
pub proof fn law_search_ends(
    before: Search,
    input: SearchInput,
    now: u64,
    after: Search,
    action: SearchAction,
)
    requires
        search_steps(before, input, now, after, action),
    ensures
        before != Search::Stopped ==> steps_left(after) < steps_left(before),
        before == Search::Stopped ==> stops(after, action),
{
}

/// The completion event is the last one. Nothing is done after it, after a
/// failure, or after an event found the consumer gone; only for the report on
/// resolved paths the next event finds that out.
pub proof fn law_completion_is_last(
    before: Search,
    input: SearchInput,
    now: u64,
    after: Search,
    action: SearchAction,
)
    requires
        search_steps(before, input, now, after, action),
    ensures
        action matches SearchAction::Send(SearchEvent::Completed { .. }) ==> after
            == Search::Completing,
        before == Search::Completing ==> stops(after, action),
        action is Fail ==> after == Search::Stopped,
        input == SearchInput::Sent(false) && !(before is ReportingPaths) ==> stops(after, action),
{
}

/// A search gives no more hits than it was asked for.
pub proof fn law_no_more_than_top_k(
    selection: Selection,
    paths: Seq<DocumentPath>,
    top_k: usize,
)
    ensures
        selected_hits(selection, paths, top_k).len() <= top_k,
{
    let ids = text::views(selection.ordered@).take(
        retriever::at_most(selection.ordered@.len(), top_k),
    );
    lemma_hits_bounded(
        ids,
        retriever::chunk_map(selection.chunks@),
        retriever::path_map(paths),
        selection.rankings@,
    );
}

proof fn lemma_hits_bounded(
    ids: Seq<Seq<char>>,
    chunks: Map<Seq<char>, Chunk>,
    paths: Map<Seq<char>, Seq<char>>,
    scores: retriever::StageScores,
)
    ensures
        retriever::hits_for(ids, chunks, paths, scores).len() <= ids.len(),
    decreases ids.len(),
{
    if ids.len() > 0 {
        lemma_hits_bounded(ids.drop_last(), chunks, paths, scores);
    }
}

/// Each hit comes from one of the given ids.
proof fn lemma_hit_source(
    ids: Seq<Seq<char>>,
    chunks: Map<Seq<char>, Chunk>,
    paths: Map<Seq<char>, Seq<char>>,
    scores: retriever::StageScores,
    k: int,
) -> (p: int)
    requires
        0 <= k < retriever::hits_for(ids, chunks, paths, scores).len(),
    ensures
        0 <= p < ids.len(),
        chunks.contains_key(ids[p]),
        retriever::hits_for(ids, chunks, paths, scores)[k] == retriever::hit_for(
            ids[p],
            chunks[ids[p]],
            paths,
            scores,
        ),
    decreases ids.len(),
{
    let rest = retriever::hits_for(ids.drop_last(), chunks, paths, scores);
    if k < rest.len() {
        let p = lemma_hit_source(ids.drop_last(), chunks, paths, scores, k);
        assert(ids.drop_last()[p] == ids[p]);
        p
    } else {
        ids.len() - 1
    }
}

proof fn lemma_score_map_has(list: Seq<ScoredId>, k: int)
    requires
        0 <= k < list.len(),
    ensures
        ranking::score_map(list).contains_key(list[k].id@),
    decreases list.len(),
{
    if k < list.len() - 1 {
        lemma_score_map_has(list.drop_last(), k);
        assert(list.drop_last()[k] == list[k]);
    }
}

/// The final score of a hit is its reranker score where it has one, else its
/// fused score.
pub proof fn law_final_score(selection: Selection, paths: Seq<DocumentPath>, top_k: usize, k: int)
    requires
        0 <= k < selected_hits(selection, paths, top_k).len(),
    ensures
        ({
            let hit = selected_hits(selection, paths, top_k)[k];
            &&& hit.score == hit.explain.final_score
            &&& hit.explain.rerank_score is Some ==> hit.score == hit.explain.rerank_score->0
            &&& hit.explain.rerank_score is None && hit.explain.rrf_score is Some ==> hit.score
                == hit.explain.rrf_score->0
        }),
{
    let ids = text::views(selection.ordered@).take(
        retriever::at_most(selection.ordered@.len(), top_k),
    );
    let p = lemma_hit_source(
        ids,
        retriever::chunk_map(selection.chunks@),
        retriever::path_map(paths),
        selection.rankings@,
        k,
    );
}

/// Without a reranker every hit has a fused score, which is its final score,
/// and none has a reranker score.
pub proof fn law_fused_score_without_reranker(
    selection: Selection,
    recalls: Recalls,
    fused: Vec<ScoredId>,
    chunks: Vec<Chunk>,
    paths: Seq<DocumentPath>,
    top_k: usize,
    k: int,
)
    requires
        selects_fused(selection, recalls, fused, chunks),
        0 <= k < selected_hits(selection, paths, top_k).len(),
    ensures
        ({
            let hit = selected_hits(selection, paths, top_k)[k];
            &&& hit.explain.rrf_score == Some(hit.score)
            &&& hit.explain.rerank_score is None
        }),
{
    let all = text::views(selection.ordered@);
    let ids = all.take(retriever::at_most(selection.ordered@.len(), top_k));
    let p = lemma_hit_source(
        ids,
        retriever::chunk_map(selection.chunks@),
        retriever::path_map(paths),
        selection.rankings@,
        k,
    );
    assert(ids[p] == all[p]);
    assert(all.len() == selection.ordered@.len());
    assert(all == retriever::ids_of(fused@));
    assert(retriever::ids_of(fused@).len() == fused@.len());
    assert(retriever::ids_of(fused@)[p] == fused@[p].id@);
    lemma_score_map_has(fused@, p);
    assert(selection.rankings.rerank@ =~= Seq::empty());
}

/// Two hits come from two of the given ids, in the same order.
proof fn lemma_hit_sources(
    ids: Seq<Seq<char>>,
    chunks: Map<Seq<char>, Chunk>,
    paths: Map<Seq<char>, Seq<char>>,
    scores: retriever::StageScores,
    k: int,
    l: int,
) -> (r: (int, int))
    requires
        0 <= k < l < retriever::hits_for(ids, chunks, paths, scores).len(),
    ensures
        0 <= r.0 < r.1 < ids.len(),
        retriever::hits_for(ids, chunks, paths, scores)[k] == retriever::hit_for(
            ids[r.0],
            chunks[ids[r.0]],
            paths,
            scores,
        ),
        retriever::hits_for(ids, chunks, paths, scores)[l] == retriever::hit_for(
            ids[r.1],
            chunks[ids[r.1]],
            paths,
            scores,
        ),
    decreases ids.len(),
{
    let front = ids.drop_last();
    if l < retriever::hits_for(front, chunks, paths, scores).len() {
        let r = lemma_hit_sources(front, chunks, paths, scores, k, l);
        assert(front[r.0] == ids[r.0] && front[r.1] == ids[r.1]);
        r
    } else {
        let p = lemma_hit_source(front, chunks, paths, scores, k);
        assert(front[p] == ids[p]);
        (p, ids.len() - 1)
    }
}

/// After reranking the hits come best first: a hit with a reranker score stands
/// behind none without one, nor behind one with a lower score.
pub proof fn law_reranked_hits_are_ordered(
    selection: Selection,
    recalls: Recalls,
    fused: Vec<ScoredId>,
    chunks: Vec<Chunk>,
    ids: Seq<Seq<char>>,
    scored: Seq<ScoredChunk>,
    paths: Seq<DocumentPath>,
    top_k: usize,
    k: int,
    l: int,
)
    requires
        selects_reranked(selection, recalls, fused, chunks, ids, scored),
        0 <= k < l < selected_hits(selection, paths, top_k).len(),
    ensures
        ({
            let a = selected_hits(selection, paths, top_k)[k];
            let b = selected_hits(selection, paths, top_k)[l];
            b.explain.rerank_score is Some ==> a.explain.rerank_score is Some && b.score.rank()
                <= a.score.rank()
        }),
{
    let all = text::views(selection.ordered@);
    let (p, q) = lemma_hit_sources(
        all.take(retriever::at_most(selection.ordered@.len(), top_k)),
        retriever::chunk_map(selection.chunks@),
        retriever::path_map(paths),
        selection.rankings@,
        k,
        l,
    );
    let scores = ranking::score_map(retriever::rerank_scores(scored));
    let keys = retriever::rerank_keys(ids, scores);
    let order = choose|order: Seq<usize>|
        #[trigger] ranking::is_ranking(keys, order) && all == order.map_values(
            |p: usize| ids[p as int],
        );
    assert(all.len() == selection.ordered@.len());
    assert(all[p] == ids[order[p] as int] && all[q] == ids[order[q] as int]);
    assert(keys[order[p] as int] == retriever::score_in(scores, all[p]));
    assert(keys[order[q] as int] == retriever::score_in(scores, all[q]));
    ranking::law_scored_before_missing(keys, order, p, q);
}

/// Where no id stands twice, the score of an id is the one that stands beside
/// it.
proof fn lemma_score_map_entry(list: Seq<ScoredId>, k: int)
    requires
        retriever::ids_of(list).no_duplicates(),
        0 <= k < list.len(),
    ensures
        ranking::score_map(list).contains_key(list[k].id@),
        ranking::score_map(list)[list[k].id@] == list[k].score,
    decreases list.len(),
{
    let ids = retriever::ids_of(list);
    let front = list.drop_last();
    if k < front.len() {
        assert(retriever::ids_of(front) =~= ids.drop_last());
        lemma_score_map_entry(front, k);
        assert(front[k] == list[k]);
        assert(ids[k] == list[k].id@ && ids[list.len() - 1] == list.last().id@);
    }
}

/// Without a reranker the hits come best first, by their fused scores.
pub proof fn law_fused_hits_are_ordered(
    selection: Selection,
    recalls: Recalls,
    fused: Vec<ScoredId>,
    chunks: Vec<Chunk>,
    ids: Seq<Seq<char>>,
    scores: Seq<Score>,
    paths: Seq<DocumentPath>,
    top_k: usize,
    k: int,
    l: int,
)
    requires
        ids == fusion::candidates(
            retriever::ids_of(recalls.bm25@),
            retriever::ids_of(recalls.vector@),
        ).map_values(|e: fusion::FusionView| e.id),
        scores.len() == ids.len(),
        fusion::is_fused(ids, scores, fusion::scored_views(fused@)),
        selects_fused(selection, recalls, fused, chunks),
        0 <= k < l < selected_hits(selection, paths, top_k).len(),
    ensures
        selected_hits(selection, paths, top_k)[l].score.rank() <= selected_hits(
            selection,
            paths,
            top_k,
        )[k].score.rank(),
{
    let all = text::views(selection.ordered@);
    let (p, q) = lemma_hit_sources(
        all.take(retriever::at_most(selection.ordered@.len(), top_k)),
        retriever::chunk_map(selection.chunks@),
        retriever::path_map(paths),
        selection.rankings@,
        k,
        l,
    );
    let found = retriever::ids_of(recalls.bm25@) + retriever::ids_of(recalls.vector@);
    assert(ids =~= retriever::distinct(found));
    retriever::law_distinct(found);
    let keys = fusion::some_scores(scores);
    let views = fusion::scored_views(fused@);
    let order = choose|order: Seq<usize>|
        #[trigger] ranking::is_ranking(keys, order) && views == order.map_values(
            |p: usize| (ids[p as int], scores[p as int]),
        );
    let names = retriever::ids_of(fused@);
    assert(views.len() == fused@.len() && names.len() == fused@.len());
    assert forall|i: int, j: int| 0 <= i < names.len() && 0 <= j < names.len() && i != j implies names[i]
        != names[j] by {
        assert(views[i] == fusion::scored_view(fused@[i]));
        assert(views[j] == fusion::scored_view(fused@[j]));
        if i < j {
            assert(ranking::precedes(keys, order[i] as int, order[j] as int));
        } else {
            assert(ranking::precedes(keys, order[j] as int, order[i] as int));
        }
    }
    assert(all.len() == selection.ordered@.len());
    assert(all[p] == names[p] && all[q] == names[q]);
    lemma_score_map_entry(fused@, p);
    lemma_score_map_entry(fused@, q);
    assert(views[p] == fusion::scored_view(fused@[p]));
    assert(views[q] == fusion::scored_view(fused@[q]));
    assert(keys[order[p] as int] == Some(scores[order[p] as int]));
    assert(keys[order[q] as int] == Some(scores[order[q] as int]));
    ranking::law_scored_before_missing(keys, order, p, q);
    assert(selection.rankings.rerank@ =~= Seq::empty());
}

/// The stage that a recall channel announced and has not reported yet.
pub open spec fn open_recall_stage(state: Recall) -> Option<SearchStage> {
    match state {
        Recall::AnnouncingBm25 { .. }
        | Recall::Segmenting { .. }
        | Recall::SearchingText { .. } => Some(SearchStage::Bm25Recall),
        Recall::AnnouncingEmbed { .. } | Recall::Embedding { .. } => Some(SearchStage::EmbedQuery),
        Recall::AnnouncingVector { .. } | Recall::SearchingVectors { .. } => Some(
            SearchStage::VectorRecall,
        ),
        _ => None,
    }
}

/// The stages of a recall channel do not overlap, each one that is reported was
/// announced, and a result is returned only where none is open.
pub proof fn law_recall_stages_are_paired(
    before: Recall,
    input: RecallInput,
    now: u64,
    after: Recall,
    action: RecallAction,
)
    requires
        recall_steps(before, input, now, after, action),
    ensures
        match action {
            RecallAction::Send(SearchEvent::StageStarted { stage }) => open_recall_stage(before)
                is None && open_recall_stage(after) == Some(stage),
            RecallAction::Send(SearchEvent::StageFinished { stage, .. }) => open_recall_stage(before)
                == Some(stage) && open_recall_stage(after) is None,
            RecallAction::Return(Ok(_)) => open_recall_stage(before) is None && after
                == Recall::Done,
            RecallAction::Return(Err(_)) => after == Recall::Done,
            RecallAction::Stop => after == Recall::Done,
            _ => open_recall_stage(after) == open_recall_stage(before),
        },
{
}

// ---- what a search asks for and gives ----

/// A search recalls to the depths that it was set up with, and leaves the query as
/// it is.
pub proof fn law_recall_depths(
    query: String,
    top_k: usize,
    config: RetrieverConfig,
    now: u64,
    after: Search,
    action: SearchAction,
)
    requires
        exists|i: int| 0 <= i < query@.len() && !text::is_ws(#[trigger] query@[i]),
        search_steps(Search::Ready { query, top_k, config }, SearchInput::Start, now, after, action),
    ensures
        action matches SearchAction::Recall { query: asked, bm25_top_k, vector_top_k } && asked@
            == query@ && bm25_top_k == config.bm25_top_k && vector_top_k == config.vector_top_k,
        after matches Search::Recalling { run } && run.query@ == query@ && run.top_k == top_k
            && run.config == config && run.started == now,
{
}

/// What the two channels recall goes into fusion whole: the candidates have their
/// places in both lists, which are kept for the hits, and the fusion has the
/// constant that it was set up with.
pub proof fn law_recalls_are_fused(
    run: Run,
    bm25: RecallResult,
    vector: RecallResult,
    now: u64,
    middle: Search,
    first: SearchAction,
    later: u64,
    after: Search,
    action: SearchAction,
)
    requires
        search_steps(
            Search::Recalling { run },
            SearchInput::Recalled { bm25: Ok(bm25), vector: Ok(vector) },
            now,
            middle,
            first,
        ),
        search_steps(middle, SearchInput::Sent(true), later, after, action),
    ensures
        after matches Search::Fusing { run: r, recalls, ids, .. } && {
            &&& recalls.bm25 == bm25.hits && recalls.vector == vector.hits
            &&& r.query == run.query && r.top_k == run.top_k && r.config == run.config
            &&& action matches SearchAction::Fuse { candidates, rrf_k }
            &&& rrf_k == run.config.rrf_k
            &&& fusion::entry_views(candidates@) == fusion::candidates(
                retriever::ids_of(bm25.hits@),
                retriever::ids_of(vector.hits@),
            )
            &&& ids@.len() == candidates@.len()
            &&& forall|e: int|
                0 <= e < ids@.len() ==> (#[trigger] ids@[e])@ == candidates@[e].id@
        },
{
    if let Search::Fusing { ids, .. } = after {
        if let SearchAction::Fuse { candidates, .. } = action {
            let views = fusion::entry_views(candidates@);
            assert(text::views(ids@).len() == ids@.len() && views.len() == candidates@.len());
            assert forall|e: int| 0 <= e < ids@.len() implies (#[trigger] ids@[e])@
                == candidates@[e].id@ by {
                assert(text::views(ids@)[e] == ids@[e]@);
                assert(views[e] == candidates@[e]@);
            }
        }
    }
}

/// With a reranker the first `rerank_top_n` fused candidates are looked up,
/// whatever number of hits was asked for; without one, as many as hits were asked
/// for. They are looked up in the fused order, and all of them where there are
/// fewer.
pub proof fn law_candidates_looked_up(
    run: Run,
    recalls: Recalls,
    fused: Vec<ScoredId>,
    now: u64,
    after: Search,
    action: SearchAction,
)
    requires
        search_steps(
            Search::AnnouncingRerank { run, recalls, fused },
            SearchInput::Sent(true),
            now,
            after,
            action,
        ),
    ensures
        action matches SearchAction::FetchChunks(asked) && {
            let depth = if run.config.reranks {
                run.config.rerank_top_n
            } else {
                run.top_k
            };
            &&& asked@.len() == vstd::math::min(depth as int, fused@.len() as int)
            &&& forall|i: int|
                0 <= i < asked@.len() ==> (#[trigger] asked@[i])@ == fused@[i].id@
            &&& after matches Search::FetchingChunks { run: r, recalls: c, fused: f, ids, .. }
            &&& r == run && c == recalls && f == fused
            &&& ids@.len() == asked@.len()
            &&& forall|i: int| 0 <= i < ids@.len() ==> (#[trigger] ids@[i])@ == fused@[i].id@
        },
{
    if let SearchAction::FetchChunks(asked) = action {
        if let Search::FetchingChunks { ids, .. } = after {
            assert(text::views(asked@).len() == asked@.len());
            assert(text::views(ids@).len() == ids@.len());
            assert forall|i: int| 0 <= i < asked@.len() implies (#[trigger] asked@[i])@
                == fused@[i].id@ by {
                assert(text::views(asked@)[i] == asked@[i]@);
            }
            assert forall|i: int| 0 <= i < ids@.len() implies (#[trigger] ids@[i])@
                == fused@[i].id@ by {
                assert(text::views(ids@)[i] == ids@[i]@);
            }
        }
    }
}

/// The chunk that is found by an id is one of the list that has this id, and there
/// is one exactly if the list has one.
proof fn lemma_chunk_map(list: Seq<Chunk>, id: Seq<char>)
    ensures
        retriever::chunk_map(list).contains_key(id) <==> exists|k: int|
            0 <= k < list.len() && (#[trigger] list[k]).id@ == id,
        retriever::chunk_map(list).contains_key(id) ==> retriever::chunk_map(list)[id].id@ == id
            && list.contains(retriever::chunk_map(list)[id]),
    decreases list.len(),
{
    if list.len() > 0 {
        let front = list.drop_last();
        lemma_chunk_map(front, id);
        assert forall|k: int| 0 <= k < front.len() implies #[trigger] front[k] == list[k] by {}
        assert(list.last() == list[list.len() - 1]);
        if retriever::chunk_map(list).contains_key(id) && list.last().id@ != id {
            let k = choose|k: int| 0 <= k < front.len() && (#[trigger] front[k]).id@ == id;
            assert(list[k].id@ == id);
            let at = choose|k: int|
                0 <= k < front.len() && front[k] == retriever::chunk_map(front)[id];
            assert(list[at] == retriever::chunk_map(list)[id]);
        }
        if exists|k: int| 0 <= k < list.len() && (#[trigger] list[k]).id@ == id {
            let k = choose|k: int| 0 <= k < list.len() && (#[trigger] list[k]).id@ == id;
            if k < front.len() {
                assert(front[k].id@ == id);
            }
        }
    }
}

/// The reranker gets the query and every chunk that was found for a looked up
/// candidate, in the order of the candidates.
pub proof fn law_reranker_sees_all_candidates(
    run: Run,
    recalls: Recalls,
    fused: Vec<ScoredId>,
    ids: Vec<String>,
    since: u64,
    chunks: Vec<Chunk>,
    now: u64,
    after: Search,
    action: SearchAction,
) -> (from: Seq<int>)
    requires
        run.config.reranks,
        search_steps(
            Search::FetchingChunks { run, recalls, fused, ids, since },
            SearchInput::Chunks(Ok(chunks)),
            now,
            after,
            action,
        ),
    ensures
        action matches SearchAction::Rerank { query, chunks: asked } && {
            &&& query@ == run.query@
            &&& forall|i: int|
                0 <= i < ids@.len() && (exists|k: int|
                    0 <= k < chunks@.len() && (#[trigger] chunks@[k]).id@ == ids@[i]@) ==> exists|
                    m: int,
                |
                    0 <= m < asked@.len() && (#[trigger] asked@[m]).id@ == (#[trigger] ids@[i])@
            &&& forall|m: int|
                0 <= m < asked@.len() ==> chunks@.contains(#[trigger] asked@[m]) && exists|i: int|
                    0 <= i < ids@.len() && (#[trigger] ids@[i])@ == asked@[m].id@
        },
        action matches SearchAction::Rerank { query, chunks: asked } && {
            &&& from.len() == asked@.len()
            &&& forall|m: int|
                0 <= m < from.len() ==> 0 <= #[trigger] from[m] < ids@.len() && ids@[from[m]]@
                    == asked@[m].id@
            &&& forall|m: int, n: int|
                0 <= m < n < from.len() ==> #[trigger] from[m] < #[trigger] from[n]
        },
{
    if let SearchAction::Rerank { chunks: asked, .. } = action {
        let all = text::views(ids@);
        let from = lemma_known_chunks(all, chunks@);
        assert forall|m: int| 0 <= m < from.len() implies 0 <= #[trigger] from[m] < ids@.len()
            && ids@[from[m]]@ == asked@[m].id@ by {
            assert(all[from[m]] == ids@[from[m]]@);
        }
        assert forall|i: int|
            0 <= i < ids@.len() && (exists|k: int|
                0 <= k < chunks@.len() && (#[trigger] chunks@[k]).id@ == ids@[i]@) implies exists|
            m: int,
        | 0 <= m < asked@.len() && (#[trigger] asked@[m]).id@ == (#[trigger] ids@[i])@ by {
            assert(all[i] == ids@[i]@);
            lemma_chunk_map(chunks@, all[i]);
            let m = choose|m: int| 0 <= m < from.len() && #[trigger] from[m] == i;
            assert(asked@[m].id@ == ids@[i]@);
        }
        assert forall|m: int| 0 <= m < asked@.len() implies chunks@.contains(#[trigger] asked@[m])
            && exists|i: int| 0 <= i < ids@.len() && (#[trigger] ids@[i])@ == asked@[m].id@ by {
            assert(ids@[from[m]]@ == asked@[m].id@);
        }
        from
    } else {
        Seq::empty()
    }
}

proof fn lemma_known_chunks(ids: Seq<Seq<char>>, chunks: Seq<Chunk>) -> (from: Seq<int>)
    ensures
        ({
            let known = retriever::known_chunks(ids, retriever::chunk_map(chunks));
            &&& from.len() == known.len()
            &&& forall|m: int|
                0 <= m < from.len() ==> 0 <= #[trigger] from[m] < ids.len() && ids[from[m]]
                    == known[m].id@ && chunks.contains(known[m])
            &&& forall|m: int, n: int|
                0 <= m < n < from.len() ==> #[trigger] from[m] < #[trigger] from[n]
            &&& forall|i: int|
                0 <= i < ids.len() && retriever::chunk_map(chunks).contains_key(#[trigger] ids[i])
                    ==> exists|m: int| 0 <= m < from.len() && #[trigger] from[m] == i
        }),
    decreases ids.len(),
{
    if ids.len() == 0 {
        Seq::empty()
    } else {
        let map = retriever::chunk_map(chunks);
        let front = lemma_known_chunks(ids.drop_last(), chunks);
        let id = ids.last();
        let rest = retriever::known_chunks(ids.drop_last(), map);
        let known = retriever::known_chunks(ids, map);
        lemma_chunk_map(chunks, id);
        let from = if map.contains_key(id) {
            front.push(ids.len() - 1)
        } else {
            front
        };
        assert forall|m: int| 0 <= m < from.len() implies 0 <= #[trigger] from[m] < ids.len()
            && ids[from[m]] == known[m].id@ && chunks.contains(known[m]) by {
            if m < front.len() {
                assert(from[m] == front[m] && known[m] == rest[m]);
                assert(ids.drop_last()[front[m]] == ids[front[m]]);
            }
        }
        assert forall|m: int, n: int| 0 <= m < n < from.len() implies #[trigger] from[m]
            < #[trigger] from[n] by {
            assert(from[m] == front[m]);
            if n < front.len() {
                assert(from[n] == front[n]);
            }
        }
        assert forall|i: int| 0 <= i < ids.len() && map.contains_key(#[trigger] ids[i]) implies exists|
            m: int,
        | 0 <= m < from.len() && #[trigger] from[m] == i by {
            if i < ids.len() - 1 {
                assert(ids.drop_last()[i] == ids[i]);
                let m = choose|m: int| 0 <= m < front.len() && #[trigger] front[m] == i;
                assert(from[m] == i);
            } else {
                assert(from[front.len() as int] == i);
            }
        }
        from
    }
}

/// Whether `score` is the last one that a list gives an id, or `None` where it
/// gives it none.
pub open spec fn is_last_score(list: Seq<ScoredId>, id: Seq<char>, score: Option<Score>) -> bool {
    match score {
        Some(x) => exists|k: int|
            {
                &&& 0 <= k < list.len()
                &&& (#[trigger] list[k]).id@ == id
                &&& list[k].score == x
                &&& forall|j: int| k < j < list.len() ==> (#[trigger] list[j]).id@ != id
            },
        None => forall|k: int| 0 <= k < list.len() ==> (#[trigger] list[k]).id@ != id,
    }
}

proof fn lemma_last_score(list: Seq<ScoredId>, id: Seq<char>)
    ensures
        is_last_score(list, id, retriever::score_in(ranking::score_map(list), id)),
    decreases list.len(),
{
    if list.len() > 0 {
        let front = list.drop_last();
        let n = list.len() - 1;
        lemma_last_score(front, id);
        assert forall|k: int| 0 <= k < front.len() implies #[trigger] front[k] == list[k] by {}
        assert(list.last() == list[n]);
        if list[n].id@ == id {
            assert(is_last_score(list, id, Some(list[n].score)));
        } else {
            match retriever::score_in(ranking::score_map(front), id) {
                Some(x) => {
                    let k = choose|k: int|
                        {
                            &&& 0 <= k < front.len()
                            &&& (#[trigger] front[k]).id@ == id
                            &&& front[k].score == x
                            &&& forall|j: int|
                                k < j < front.len() ==> (#[trigger] front[j]).id@ != id
                        };
                    assert(list[k].id@ == id && list[k].score == x);
                    assert forall|j: int| k < j < list.len() implies (#[trigger] list[j]).id@
                        != id by {
                        if j < n {
                            assert(front[j] == list[j]);
                        }
                    }
                },
                None => {
                    assert forall|k: int| 0 <= k < list.len() implies (#[trigger] list[k]).id@
                        != id by {
                        if k < n {
                            assert(front[k] == list[k]);
                        }
                    }
                },
            }
        }
    }
}

/// Whether `path` is the last one that is given for a document, or empty where
/// none is given.
pub open spec fn is_last_path(
    paths: Seq<DocumentPath>,
    doc_id: Seq<char>,
    path: Seq<char>,
) -> bool {
    if exists|k: int| 0 <= k < paths.len() && (#[trigger] paths[k]).doc_id@ == doc_id {
        exists|k: int|
            {
                &&& 0 <= k < paths.len()
                &&& (#[trigger] paths[k]).doc_id@ == doc_id
                &&& paths[k].path@ == path
                &&& forall|j: int| k < j < paths.len() ==> (#[trigger] paths[j]).doc_id@ != doc_id
            }
    } else {
        path.len() == 0
    }
}

proof fn lemma_last_path(paths: Seq<DocumentPath>, doc_id: Seq<char>)
    ensures
        retriever::path_map(paths).contains_key(doc_id) <==> exists|k: int|
            0 <= k < paths.len() && (#[trigger] paths[k]).doc_id@ == doc_id,
        is_last_path(paths, doc_id, retriever::path_of(retriever::path_map(paths), doc_id)),
    decreases paths.len(),
{
    if paths.len() > 0 {
        let front = paths.drop_last();
        let n = paths.len() - 1;
        lemma_last_path(front, doc_id);
        assert forall|k: int| 0 <= k < front.len() implies #[trigger] front[k] == paths[k] by {}
        assert(paths.last() == paths[n]);
        if paths[n].doc_id@ != doc_id {
            let path = retriever::path_of(retriever::path_map(front), doc_id);
            if exists|k: int| 0 <= k < front.len() && (#[trigger] front[k]).doc_id@ == doc_id {
                let k = choose|k: int|
                    {
                        &&& 0 <= k < front.len()
                        &&& (#[trigger] front[k]).doc_id@ == doc_id
                        &&& front[k].path@ == path
                        &&& forall|j: int|
                            k < j < front.len() ==> (#[trigger] front[j]).doc_id@ != doc_id
                    };
                assert(paths[k].doc_id@ == doc_id && paths[k].path@ == path);
                assert forall|j: int| k < j < paths.len() implies (#[trigger] paths[j]).doc_id@
                    != doc_id by {
                    if j < n {
                        assert(front[j] == paths[j]);
                    }
                }
            } else {
                assert forall|k: int| 0 <= k < paths.len() implies (#[trigger] paths[k]).doc_id@
                    != doc_id by {
                    if k < n {
                        assert(front[k] == paths[k]);
                    }
                }
            }
        }
    }
}

/// Reranking orders all candidates by the scores that the reranker gave them: each
/// comes out once; one with a score stands in front of all with a lower one and of
/// all without one, and of two that are equal in this the first stays in front.
pub proof fn law_reranked_best_first(
    selection: Selection,
    recalls: Recalls,
    fused: Vec<ScoredId>,
    chunks: Vec<Chunk>,
    ids: Seq<Seq<char>>,
    scored: Seq<ScoredChunk>,
) -> (order: Seq<int>)
    requires
        selects_reranked(selection, recalls, fused, chunks, ids, scored),
    ensures
        order.len() == ids.len() == selection.ordered@.len(),
        order.no_duplicates(),
        forall|i: int|
            0 <= i < order.len() ==> 0 <= #[trigger] order[i] < ids.len()
                && selection.ordered@[i]@ == ids[order[i]],
        forall|p: int| 0 <= p < ids.len() ==> #[trigger] order.contains(p),
        selection.rankings.rerank@.len() == scored.len(),
        forall|k: int|
            0 <= k < scored.len() ==> (#[trigger] selection.rankings.rerank@[k]).id
                == scored[k].chunk.id && selection.rankings.rerank@[k].score == scored[k].score,
        forall|i: int, j: int, x: Option<Score>, y: Option<Score>|
            0 <= i < j < order.len() && #[trigger] is_last_score(
                selection.rankings.rerank@,
                ids[order[i]],
                x,
            ) && #[trigger] is_last_score(selection.rankings.rerank@, ids[order[j]], y) ==> match (
                x,
                y,
            ) {
                (Some(a), Some(b)) => b.rank() < a.rank() || b.rank() == a.rank() && order[i]
                    < order[j],
                (Some(_), None) => true,
                (None, Some(_)) => false,
                (None, None) => order[i] < order[j],
            },
{
    let scores = selection.rankings.rerank@;
    let map = ranking::score_map(scores);
    let keys = retriever::rerank_keys(ids, map);
    let all = text::views(selection.ordered@);
    let places = choose|order: Seq<usize>|
        #[trigger] ranking::is_ranking(keys, order) && all == order.map_values(
            |p: usize| ids[p as int],
        );
    let order = places.map_values(|p: usize| p as int);
    assert(all.len() == selection.ordered@.len());
    assert forall|i: int| 0 <= i < order.len() implies 0 <= #[trigger] order[i] < ids.len()
        && selection.ordered@[i]@ == ids[order[i]] by {
        assert(places[i] < keys.len());
        assert(all[i] == selection.ordered@[i]@);
    }
    assert forall|p: int| 0 <= p < ids.len() implies #[trigger] order.contains(p) by {
        ranking::lemma_ranking_lists_all(keys, places, p);
        let i = choose|i: int| 0 <= i < places.len() && #[trigger] places[i] == p;
        assert(order[i] == p);
    }
    assert forall|k: int| 0 <= k < scored.len() implies (#[trigger] scores[k]).id
        == scored[k].chunk.id && scores[k].score == scored[k].score by {}
    assert(order.no_duplicates()) by {
        assert forall|i: int, j: int|
            0 <= i < order.len() && 0 <= j < order.len() && i != j implies order[i] != order[j] by {
            if i < j {
                assert(ranking::precedes(keys, places[i] as int, places[j] as int));
            } else {
                assert(ranking::precedes(keys, places[j] as int, places[i] as int));
            }
        }
    }
    assert forall|i: int, j: int, x: Option<Score>, y: Option<Score>|
        0 <= i < j < order.len() && #[trigger] is_last_score(scores, ids[order[i]], x)
            && #[trigger] is_last_score(scores, ids[order[j]], y) implies match (x, y) {
        (Some(a), Some(b)) => b.rank() < a.rank() || b.rank() == a.rank() && order[i] < order[j],
        (Some(_), None) => true,
        (None, Some(_)) => false,
        (None, None) => order[i] < order[j],
    } by {
        lemma_last_score(scores, ids[order[i]]);
        lemma_last_score(scores, ids[order[j]]);
        lemma_last_score_is_one(
            scores,
            ids[order[i]],
            x,
            retriever::score_in(map, ids[order[i]]),
        );
        lemma_last_score_is_one(
            scores,
            ids[order[j]],
            y,
            retriever::score_in(map, ids[order[j]]),
        );
        assert(keys[order[i]] == x && keys[order[j]] == y);
        assert(ranking::precedes(keys, places[i] as int, places[j] as int));
    }
    order
}

proof fn lemma_last_score_is_one(
    list: Seq<ScoredId>,
    id: Seq<char>,
    x: Option<Score>,
    y: Option<Score>,
)
    requires
        is_last_score(list, id, x),
        is_last_score(list, id, y),
    ensures
        x == y,
{
}

/// The hits are the first `top_k` candidates of the final order that have a chunk,
/// none left out and in this order. Each has its own chunk, the path of the
/// document of that chunk, the scores that the stages gave its id, and as its score
/// the reranker score, else the fused score, else zero.
pub proof fn law_hits_come_from_candidates(
    selection: Selection,
    paths: Seq<DocumentPath>,
    top_k: usize,
    hits: Seq<SearchHit>,
) -> (from: Seq<int>)
    requires
        retriever::hit_views(hits) == selected_hits(selection, paths, top_k),
    ensures
        from.len() == hits.len(),
        forall|m: int|
            0 <= m < hits.len() ==> {
                let id = selection.ordered@[#[trigger] from[m]]@;
                &&& 0 <= from[m] < selection.ordered@.len() && from[m] < top_k
                &&& hits[m].chunk.id@ == id
                &&& selection.chunks@.contains(hits[m].chunk)
                &&& is_last_path(paths, hits[m].chunk.doc_id@, hits[m].file_path@)
                &&& is_last_score(selection.rankings.bm25@, id, hits[m].explain.bm25_score)
                &&& is_last_score(selection.rankings.vector@, id, hits[m].explain.vector_score)
                &&& is_last_score(selection.rankings.rrf@, id, hits[m].explain.rrf_score)
                &&& is_last_score(selection.rankings.rerank@, id, hits[m].explain.rerank_score)
                &&& hits[m].explain.final_score == hits[m].score
                &&& hits[m].score == match (
                    hits[m].explain.rerank_score,
                    hits[m].explain.rrf_score,
                ) {
                    (Some(s), _) => s,
                    (None, Some(s)) => s,
                    (None, None) => Score { bits: 0 },
                }
            },
        forall|m: int, n: int| 0 <= m < n < from.len() ==> #[trigger] from[m] < #[trigger] from[n],
        forall|i: int|
            0 <= i < selection.ordered@.len() && i < top_k && (exists|k: int|
                0 <= k < selection.chunks@.len() && (#[trigger] selection.chunks@[k]).id@
                    == selection.ordered@[i]@) ==> exists|m: int|
                0 <= m < hits.len() && #[trigger] from[m] == i && hits[m].chunk.id@ == (
                #[trigger] selection.ordered@[i])@,
{
    let all = text::views(selection.ordered@);
    let ids = all.take(retriever::at_most(selection.ordered@.len(), top_k));
    let chunks = retriever::chunk_map(selection.chunks@);
    let map = retriever::path_map(paths);
    let scores = selection.rankings@;
    let views = retriever::hits_for(ids, chunks, map, scores);
    let from = lemma_hits_from(ids, chunks, map, scores);
    assert(all.len() == selection.ordered@.len());
    assert(retriever::hit_views(hits).len() == hits.len());
    assert forall|m: int| 0 <= m < hits.len() implies {
        let id = selection.ordered@[#[trigger] from[m]]@;
        &&& 0 <= from[m] < selection.ordered@.len() && from[m] < top_k
        &&& hits[m].chunk.id@ == id
        &&& selection.chunks@.contains(hits[m].chunk)
        &&& is_last_path(paths, hits[m].chunk.doc_id@, hits[m].file_path@)
        &&& is_last_score(selection.rankings.bm25@, id, hits[m].explain.bm25_score)
        &&& is_last_score(selection.rankings.vector@, id, hits[m].explain.vector_score)
        &&& is_last_score(selection.rankings.rrf@, id, hits[m].explain.rrf_score)
        &&& is_last_score(selection.rankings.rerank@, id, hits[m].explain.rerank_score)
        &&& hits[m].explain.final_score == hits[m].score
        &&& hits[m].score == match (hits[m].explain.rerank_score, hits[m].explain.rrf_score) {
            (Some(s), _) => s,
            (None, Some(s)) => s,
            (None, None) => Score { bits: 0 },
        }
    } by {
        let id = ids[from[m]];
        assert(retriever::hit_views(hits)[m] == hits[m]@);
        assert(views[m] == retriever::hit_for(id, chunks[id], map, scores));
        assert(id == all[from[m]] && all[from[m]] == selection.ordered@[from[m]]@);
        lemma_chunk_map(selection.chunks@, id);
        lemma_last_path(paths, chunks[id].doc_id@);
        lemma_last_score(selection.rankings.bm25@, id);
        lemma_last_score(selection.rankings.vector@, id);
        lemma_last_score(selection.rankings.rrf@, id);
        lemma_last_score(selection.rankings.rerank@, id);
    }
    assert forall|i: int|
        0 <= i < selection.ordered@.len() && i < top_k && (exists|k: int|
            0 <= k < selection.chunks@.len() && (#[trigger] selection.chunks@[k]).id@
                == selection.ordered@[i]@) implies exists|m: int|
        0 <= m < hits.len() && #[trigger] from[m] == i && hits[m].chunk.id@ == (
        #[trigger] selection.ordered@[i])@ by {
        assert(ids[i] == all[i] && all[i] == selection.ordered@[i]@);
        lemma_chunk_map(selection.chunks@, ids[i]);
        let m = choose|m: int| 0 <= m < from.len() && #[trigger] from[m] == i;
        assert(hits[m].chunk.id@ == selection.ordered@[from[m]]@);
    }
    from
}

proof fn lemma_hits_from(
    ids: Seq<Seq<char>>,
    chunks: Map<Seq<char>, Chunk>,
    paths: Map<Seq<char>, Seq<char>>,
    scores: retriever::StageScores,
) -> (from: Seq<int>)
    ensures
        ({
            let hits = retriever::hits_for(ids, chunks, paths, scores);
            &&& from.len() == hits.len()
            &&& forall|m: int|
                0 <= m < from.len() ==> 0 <= #[trigger] from[m] < ids.len() && chunks.contains_key(
                    ids[from[m]],
                ) && hits[m] == retriever::hit_for(
                    ids[from[m]],
                    chunks[ids[from[m]]],
                    paths,
                    scores,
                )
            &&& forall|m: int, n: int|
                0 <= m < n < from.len() ==> #[trigger] from[m] < #[trigger] from[n]
            &&& forall|i: int|
                0 <= i < ids.len() && chunks.contains_key(#[trigger] ids[i]) ==> exists|m: int|
                    0 <= m < from.len() && #[trigger] from[m] == i
        }),
    decreases ids.len(),
{
    if ids.len() == 0 {
        Seq::empty()
    } else {
        let front = lemma_hits_from(ids.drop_last(), chunks, paths, scores);
        let id = ids.last();
        let rest = retriever::hits_for(ids.drop_last(), chunks, paths, scores);
        let hits = retriever::hits_for(ids, chunks, paths, scores);
        let from = if chunks.contains_key(id) {
            front.push(ids.len() - 1)
        } else {
            front
        };
        assert forall|m: int| 0 <= m < from.len() implies 0 <= #[trigger] from[m] < ids.len()
            && chunks.contains_key(ids[from[m]]) && hits[m] == retriever::hit_for(
            ids[from[m]],
            chunks[ids[from[m]]],
            paths,
            scores,
        ) by {
            if m < front.len() {
                assert(from[m] == front[m] && hits[m] == rest[m]);
                assert(ids.drop_last()[front[m]] == ids[front[m]]);
            }
        }
        assert forall|m: int, n: int| 0 <= m < n < from.len() implies #[trigger] from[m]
            < #[trigger] from[n] by {
            assert(from[m] == front[m]);
            if n < front.len() {
                assert(from[n] == front[n]);
            }
        }
        assert forall|i: int| 0 <= i < ids.len() && chunks.contains_key(#[trigger] ids[i]) implies exists|
            m: int,
        | 0 <= m < from.len() && #[trigger] from[m] == i by {
            if i < ids.len() - 1 {
                assert(ids.drop_last()[i] == ids[i]);
                let m = choose|m: int| 0 <= m < front.len() && #[trigger] front[m] == i;
                assert(from[m] == i);
            } else {
                assert(from[front.len() as int] == i);
            }
        }
        from
    }
}

/// What a search gives after reranking: no more hits than were asked for, each a
/// chunk that was found for a looked up candidate, with the path of its document;
/// best first; and the best there are: a candidate that has a chunk and is no hit
/// has no better reranker score than any hit.
pub proof fn law_reranked_search_gives_the_best(
    states: Seq<Search>,
    times: Seq<u64>,
    actions: Seq<SearchAction>,
    run: Run,
    recalls: Recalls,
    fused: Vec<ScoredId>,
    ids: Vec<String>,
    chunks: Vec<Chunk>,
    since: u64,
    scored: Vec<ScoredChunk>,
    paths: Vec<DocumentPath>,
    noticed: bool,
)
    requires
        states.len() == 9 && times.len() == 8 && actions.len() == 8,
        states[0] == (Search::Reranking { run, recalls, fused, ids, chunks, since }),
        search_steps(
            states[0],
            SearchInput::Reranked(Ok(scored)),
            times[0],
            states[1],
            actions[0],
        ),
        search_steps(states[1], SearchInput::Sent(true), times[1], states[2], actions[1]),
        search_steps(states[2], SearchInput::Sent(true), times[2], states[3], actions[2]),
        search_steps(states[3], SearchInput::Paths(Ok(paths)), times[3], states[4], actions[3]),
        search_steps(states[4], SearchInput::Sent(noticed), times[4], states[5], actions[4]),
        search_steps(states[5], SearchInput::Sent(true), times[5], states[6], actions[5]),
        search_steps(states[6], SearchInput::Tick, times[6], states[7], actions[6]),
        search_steps(states[7], SearchInput::Sent(true), times[7], states[8], actions[7]),
    ensures
        actions[7] matches SearchAction::Send(SearchEvent::Completed { hits, .. }) && {
            let scores = retriever::rerank_scores(scored@);
            &&& hits@.len() <= run.top_k
            &&& forall|m: int|
                0 <= m < hits@.len() ==> {
                    &&& exists|i: int|
                        0 <= i < ids@.len() && (#[trigger] ids@[i])@ == (
                        #[trigger] hits@[m]).chunk.id@
                    &&& chunks@.contains(hits@[m].chunk)
                    &&& is_last_path(paths@, hits@[m].chunk.doc_id@, hits@[m].file_path@)
                    &&& is_last_score(
                        scores,
                        hits@[m].chunk.id@,
                        hits@[m].explain.rerank_score,
                    )
                    &&& is_last_score(
                        recalls.bm25@,
                        hits@[m].chunk.id@,
                        hits@[m].explain.bm25_score,
                    )
                    &&& is_last_score(
                        recalls.vector@,
                        hits@[m].chunk.id@,
                        hits@[m].explain.vector_score,
                    )
                    &&& is_last_score(fused@, hits@[m].chunk.id@, hits@[m].explain.rrf_score)
                }
            &&& forall|m: int, n: int|
                0 <= m < n < hits@.len() && (#[trigger] hits@[n]).explain.rerank_score is Some
                    ==> (#[trigger] hits@[m]).explain.rerank_score is Some
                    && hits@[n].explain.rerank_score->0.rank()
                    <= hits@[m].explain.rerank_score->0.rank()
            &&& forall|i: int, m: int, y: Score|
                {
                    &&& 0 <= i < ids@.len()
                    &&& 0 <= m < hits@.len()
                    &&& exists|k: int|
                        0 <= k < chunks@.len() && (#[trigger] chunks@[k]).id@ == ids@[i]@
                    &&& forall|n: int|
                        0 <= n < hits@.len() ==> (#[trigger] hits@[n]).chunk.id@ != ids@[i]@
                    &&& #[trigger] is_last_score(scores, ids@[i]@, Some(y))
                } ==> (#[trigger] hits@[m]).explain.rerank_score is Some && y.rank()
                    <= hits@[m].explain.rerank_score->0.rank()
        },
{
    let selection = states[1]->ReportingRerank_selection;
    assert(states[4] is ReportingPaths);
    let all = text::views(ids@);
    let scores = retriever::rerank_scores(scored@);
    let order = law_reranked_best_first(selection, recalls, fused, chunks, all, scored@);
    assert(selection.rankings.rerank@ == scores);
    if let SearchAction::Send(SearchEvent::Completed { hits, .. }) = actions[7] {
        let from = law_hits_come_from_candidates(selection, paths@, run.top_k, hits@);
        assert(all.len() == ids@.len());
        law_no_more_than_top_k(selection, paths@, run.top_k);
        assert(retriever::hit_views(hits@).len() == hits@.len());
        assert forall|m: int| 0 <= m < hits@.len() implies {
            &&& exists|i: int|
                0 <= i < ids@.len() && (#[trigger] ids@[i])@ == (#[trigger] hits@[m]).chunk.id@
            &&& chunks@.contains(hits@[m].chunk)
            &&& is_last_path(paths@, hits@[m].chunk.doc_id@, hits@[m].file_path@)
            &&& is_last_score(scores, hits@[m].chunk.id@, hits@[m].explain.rerank_score)
            &&& is_last_score(recalls.bm25@, hits@[m].chunk.id@, hits@[m].explain.bm25_score)
            &&& is_last_score(recalls.vector@, hits@[m].chunk.id@, hits@[m].explain.vector_score)
            &&& is_last_score(fused@, hits@[m].chunk.id@, hits@[m].explain.rrf_score)
        } by {
            let at = order[from[m]];
            assert(all[at] == ids@[at]@);
            assert(hits@[m].chunk.id@ == ids@[at]@);
        }
        assert forall|m: int, n: int|
            0 <= m < n < hits@.len() && (#[trigger] hits@[n]).explain.rerank_score is Some implies (
        #[trigger] hits@[m]).explain.rerank_score is Some && hits@[n].explain.rerank_score->0.rank()
            <= hits@[m].explain.rerank_score->0.rank() by {
            let (p, q) = (from[m], from[n]);
            assert(hits@[m].chunk.id@ == all[order[p]] && hits@[n].chunk.id@ == all[order[q]]);
            assert(is_last_score(scores, all[order[p]], hits@[m].explain.rerank_score));
            assert(is_last_score(scores, all[order[q]], hits@[n].explain.rerank_score));
        }
        assert forall|i: int, m: int, y: Score|
            {
                &&& 0 <= i < ids@.len()
                &&& 0 <= m < hits@.len()
                &&& exists|k: int|
                    0 <= k < chunks@.len() && (#[trigger] chunks@[k]).id@ == ids@[i]@
                &&& forall|n: int|
                    0 <= n < hits@.len() ==> (#[trigger] hits@[n]).chunk.id@ != ids@[i]@
                &&& #[trigger] is_last_score(scores, ids@[i]@, Some(y))
            } implies (#[trigger] hits@[m]).explain.rerank_score is Some && y.rank()
            <= hits@[m].explain.rerank_score->0.rank() by {
            assert(all[i] == ids@[i]@);
            assert(order.contains(i));
            let q = choose|q: int| 0 <= q < order.len() && order[q] == i;
            assert(selection.ordered@[q]@ == all[order[q]]);
            if q < run.top_k {
                assert(selection.ordered@[q]@ == ids@[i]@);
                let n = choose|n: int|
                    0 <= n < hits@.len() && #[trigger] from[n] == q && hits@[n].chunk.id@
                        == selection.ordered@[q]@;
                assert(hits@[n].chunk.id@ == ids@[i]@);
            }
            let p = from[m];
            assert(p < run.top_k <= q);
            assert(hits@[m].chunk.id@ == all[order[p]]);
            assert(is_last_score(scores, all[order[p]], hits@[m].explain.rerank_score));
            assert(is_last_score(scores, all[order[q]], Some(y)));
        }
    }
}

/// Once the fused scores are known, the candidates are ordered by them: all of
/// them, each with its own score, a higher score in front of a lower one, and of
/// two equal ones the one that stood in front.
pub proof fn law_fusion_orders_candidates(
    run: Run,
    recalls: Recalls,
    ids: Vec<String>,
    since: u64,
    scores: Vec<Score>,
    now: u64,
    after: Search,
    action: SearchAction,
)
    requires
        scores@.len() == ids@.len(),
        search_steps(
            Search::Fusing { run, recalls, ids, since },
            SearchInput::Fused(scores),
            now,
            after,
            action,
        ),
    ensures
        after matches Search::ReportingFusion { run: r, recalls: c, fused } && {
            &&& r.query == run.query && r.top_k == run.top_k && r.config == run.config
            &&& c == recalls
            &&& fused@.len() == ids@.len()
            &&& exists|order: Seq<int>|
                {
                    &&& order.len() == fused@.len()
                    &&& order.no_duplicates()
                    &&& forall|p: int| 0 <= p < ids@.len() ==> #[trigger] order.contains(p)
                    &&& forall|i: int|
                        0 <= i < fused@.len() ==> 0 <= #[trigger] order[i] < ids@.len()
                            && fused@[i].id@ == ids@[order[i]]@ && fused@[i].score
                            == scores@[order[i]]
                    &&& forall|i: int, j: int|
                        0 <= i < j < fused@.len() ==> scores@[#[trigger] order[j]].rank()
                            < scores@[#[trigger] order[i]].rank() || scores@[order[j]].rank()
                            == scores@[order[i]].rank() && order[i] < order[j]
                }
        },
{
    if let Search::ReportingFusion { fused, .. } = after {
        fusion::law_fused_best_first(ids@, scores@, fused@);
    }
}

/// A search that found candidates goes on to look them up, and one that found none
/// completes without hits.
pub proof fn law_found_candidates_are_looked_up(
    run: Run,
    recalls: Recalls,
    fused: Vec<ScoredId>,
    now: u64,
    after: Search,
    action: SearchAction,
)
    requires
        search_steps(
            Search::ReportingFusion { run, recalls, fused },
            SearchInput::Sent(true),
            now,
            after,
            action,
        ),
    ensures
        fused@.len() > 0 ==> after == (Search::AnnouncingRerank { run, recalls, fused }),
        fused@.len() == 0 ==> (action matches SearchAction::Send(
            SearchEvent::Completed { hits, .. },
        ) && hits@.len() == 0),
{
    if let SearchAction::Send(SearchEvent::Completed { hits, .. }) = action {
        assert(retriever::hit_views(hits@).len() == hits@.len());
    }
}

/// What a search without a reranker gives: of the first `top_k` candidates of the
/// fused order those that have a chunk, all of them and in this order, each with
/// the path of its document, its fused score, and no reranker score.
pub proof fn law_fused_search_gives_the_first(
    states: Seq<Search>,
    times: Seq<u64>,
    actions: Seq<SearchAction>,
    run: Run,
    recalls: Recalls,
    fused: Vec<ScoredId>,
    ids: Vec<String>,
    since: u64,
    chunks: Vec<Chunk>,
    paths: Vec<DocumentPath>,
    noticed: bool,
) -> (from: Seq<int>)
    requires
        !run.config.reranks,
        states.len() == 9 && times.len() == 8 && actions.len() == 8,
        states[0] == (Search::FetchingChunks { run, recalls, fused, ids, since }),
        search_steps(
            states[0],
            SearchInput::Chunks(Ok(chunks)),
            times[0],
            states[1],
            actions[0],
        ),
        search_steps(states[1], SearchInput::Sent(true), times[1], states[2], actions[1]),
        search_steps(states[2], SearchInput::Sent(true), times[2], states[3], actions[2]),
        search_steps(states[3], SearchInput::Paths(Ok(paths)), times[3], states[4], actions[3]),
        search_steps(states[4], SearchInput::Sent(noticed), times[4], states[5], actions[4]),
        search_steps(states[5], SearchInput::Sent(true), times[5], states[6], actions[5]),
        search_steps(states[6], SearchInput::Tick, times[6], states[7], actions[6]),
        search_steps(states[7], SearchInput::Sent(true), times[7], states[8], actions[7]),
    ensures
        actions[7] matches SearchAction::Send(SearchEvent::Completed { hits, .. }) && {
            &&& from.len() == hits@.len()
            &&& forall|m: int|
                0 <= m < hits@.len() ==> {
                    let id = hits@[m].chunk.id@;
                    &&& 0 <= #[trigger] from[m] < fused@.len() && from[m] < run.top_k
                    &&& fused@[from[m]].id@ == id
                    &&& chunks@.contains(hits@[m].chunk)
                    &&& is_last_path(paths@, hits@[m].chunk.doc_id@, hits@[m].file_path@)
                    &&& hits@[m].explain.rerank_score is None
                    &&& is_last_score(fused@, id, Some(hits@[m].score))
                    &&& is_last_score(recalls.bm25@, id, hits@[m].explain.bm25_score)
                    &&& is_last_score(recalls.vector@, id, hits@[m].explain.vector_score)
                }
            &&& forall|m: int, n: int|
                0 <= m < n < from.len() ==> #[trigger] from[m] < #[trigger] from[n]
            &&& forall|i: int|
                0 <= i < fused@.len() && i < run.top_k && (exists|k: int|
                    0 <= k < chunks@.len() && (#[trigger] chunks@[k]).id@ == (
                    #[trigger] fused@[i]).id@) ==> from.contains(i)
        },
{
    let selection = states[1]->ReportingRerank_selection;
    assert(states[4] is ReportingPaths);
    assert(text::views(selection.ordered@).len() == selection.ordered@.len());
    assert(retriever::ids_of(fused@).len() == fused@.len());
    assert forall|i: int| 0 <= i < fused@.len() implies (#[trigger] selection.ordered@[i])@
        == fused@[i].id@ by {
        assert(text::views(selection.ordered@)[i] == retriever::ids_of(fused@)[i]);
    }
    if let SearchAction::Send(SearchEvent::Completed { hits, .. }) = actions[7] {
        let from = law_hits_come_from_candidates(selection, paths@, run.top_k, hits@);
        assert forall|m: int| 0 <= m < hits@.len() implies {
            let id = hits@[m].chunk.id@;
            &&& 0 <= #[trigger] from[m] < fused@.len() && from[m] < run.top_k
            &&& fused@[from[m]].id@ == id
            &&& chunks@.contains(hits@[m].chunk)
            &&& is_last_path(paths@, hits@[m].chunk.doc_id@, hits@[m].file_path@)
            &&& hits@[m].explain.rerank_score is None
            &&& is_last_score(fused@, id, Some(hits@[m].score))
            &&& is_last_score(recalls.bm25@, id, hits@[m].explain.bm25_score)
            &&& is_last_score(recalls.vector@, id, hits@[m].explain.vector_score)
        } by {
            let at = from[m];
            assert(selection.ordered@[at]@ == fused@[at].id@);
            assert(hits@[m].explain.rerank_score is None);
            if hits@[m].explain.rrf_score is None {
                assert(fused@[at].id@ != hits@[m].chunk.id@);
            }
        }
        assert forall|i: int|
            0 <= i < fused@.len() && i < run.top_k && (exists|k: int|
                0 <= k < chunks@.len() && (#[trigger] chunks@[k]).id@ == (
                #[trigger] fused@[i]).id@) implies from.contains(i) by {
            assert(selection.ordered@[i]@ == fused@[i].id@);
            let m = choose|m: int|
                0 <= m < hits@.len() && #[trigger] from[m] == i && hits@[m].chunk.id@
                    == selection.ordered@[i]@;
            assert(from[m] == i);
        }
        from
    } else {
        Seq::empty()
    }
}

/// A blank query finds nothing, without recall and in no time.
pub proof fn law_blank_query_finds_nothing(
    query: String,
    top_k: usize,
    config: RetrieverConfig,
    now: u64,
    after: Search,
    action: SearchAction,
)
    requires
        forall|i: int| 0 <= i < query@.len() ==> text::is_ws(#[trigger] query@[i]),
        search_steps(Search::Ready { query, top_k, config }, SearchInput::Start, now, after, action),
    ensures
        after == Search::Completing,
        action matches SearchAction::Send(SearchEvent::Completed { hits, stats }) && {
            &&& hits@.len() == 0
            &&& stats.bm25_ms == 0 && stats.embed_ms == 0 && stats.vector_ms == 0
            &&& stats.fusion_ms == 0 && stats.rerank_ms == 0 && stats.total_ms == 0
        },
{
    if let SearchAction::Send(SearchEvent::Completed { hits, .. }) = action {
        assert(retriever::hit_views(hits@).len() == hits@.len());
    }
}

/// The times of a search are whole milliseconds of a clock that counts
/// nanoseconds: those of recall are what the channels measured, and each other
/// stage is measured from its announcement. No stage changes the time of another.
pub proof fn law_times_are_measured(
    before: Search,
    input: SearchInput,
    now: u64,
    after: Search,
    action: SearchAction,
)
    requires
        search_steps(before, input, now, after, action),
    ensures
        before matches Search::Recalling { run } ==> input matches SearchInput::Recalled {
            bm25: Ok(b),
            vector: Ok(v),
        } ==> {
            &&& after matches Search::AnnouncingFusion { run: r, .. }
            &&& r.started == run.started
            &&& r.stats.bm25_ms == b.bm25_ms && r.stats.embed_ms == v.embed_ms
            &&& r.stats.vector_ms == v.vector_ms && r.stats.fusion_ms == run.stats.fusion_ms
            &&& r.stats.rerank_ms == run.stats.rerank_ms
        },
        before matches Search::Fusing { run, ids, since, .. } ==> input matches SearchInput::Fused(
            scores,
        ) ==> scores@.len() == ids@.len() && since <= now ==> {
            &&& after matches Search::ReportingFusion { run: r, .. }
            &&& r.started == run.started
            &&& r.stats.fusion_ms == (now - since) / 1_000_000
            &&& r.stats.bm25_ms == run.stats.bm25_ms && r.stats.embed_ms == run.stats.embed_ms
            &&& r.stats.vector_ms == run.stats.vector_ms
            &&& r.stats.rerank_ms == run.stats.rerank_ms
            &&& action == SearchAction::Send(
                SearchEvent::StageFinished {
                    stage: SearchStage::Fusion,
                    elapsed_ms: r.stats.fusion_ms,
                },
            )
        },
        before matches Search::Reranking { run, since, .. } ==> input is Reranked ==> input->Reranked_0 is Ok
            ==> since <= now ==> {
            &&& after matches Search::ReportingRerank { run: r, .. }
            &&& r.started == run.started
            &&& r.stats.rerank_ms == (now - since) / 1_000_000
            &&& r.stats.bm25_ms == run.stats.bm25_ms && r.stats.embed_ms == run.stats.embed_ms
            &&& r.stats.vector_ms == run.stats.vector_ms
            &&& r.stats.fusion_ms == run.stats.fusion_ms
            &&& action == SearchAction::Send(
                SearchEvent::StageFinished {
                    stage: SearchStage::Rerank,
                    elapsed_ms: r.stats.rerank_ms,
                },
            )
        },
        before matches Search::FetchingChunks { run, since, .. } ==> input is Chunks ==> input->Chunks_0 is Ok
            ==> since <= now && !run.config.reranks ==> {
            &&& after matches Search::ReportingRerank { run: r, .. }
            &&& r.started == run.started
            &&& r.stats.rerank_ms == (now - since) / 1_000_000
            &&& r.stats.bm25_ms == run.stats.bm25_ms && r.stats.embed_ms == run.stats.embed_ms
            &&& r.stats.vector_ms == run.stats.vector_ms
            &&& r.stats.fusion_ms == run.stats.fusion_ms
        },
        before matches Search::Assembling { run, since, .. } ==> input is Tick ==> since <= now ==> {
            &&& after matches Search::ReportingAssembly { run: r, .. }
            &&& r == run
            &&& action matches SearchAction::Send(SearchEvent::StageFinished { stage, elapsed_ms })
            &&& stage == SearchStage::Assemble
            &&& elapsed_ms == (now - since) / 1_000_000
        },
        before matches Search::ReportingAssembly { run, hits } ==> input == SearchInput::Sent(true)
            ==> run.started <= now ==> {
            &&& action matches SearchAction::Send(SearchEvent::Completed { hits: given, stats })
            &&& retriever::hit_views(given@) == retriever::hit_views(hits@)
            &&& stats.total_ms == (now - run.started) / 1_000_000
            &&& stats.bm25_ms == run.stats.bm25_ms && stats.embed_ms == run.stats.embed_ms
            &&& stats.vector_ms == run.stats.vector_ms && stats.fusion_ms == run.stats.fusion_ms
            &&& stats.rerank_ms == run.stats.rerank_ms
        },
        before matches Search::ReportingFusion { run, fused, .. } ==> input == SearchInput::Sent(
            true,
        ) ==> fused@.len() == 0 && run.started <= now ==> {
            &&& action matches SearchAction::Send(SearchEvent::Completed { hits, stats })
            &&& hits@.len() == 0
            &&& stats.total_ms == (now - run.started) / 1_000_000
        },
{
    if let SearchAction::Send(SearchEvent::Completed { hits, .. }) = action {
        assert(retriever::hit_views(hits@).len() == hits@.len());
    }
}

/// What fails on the way ends the search with its own error, the keyword
/// channel's before the vector channel's.
pub proof fn law_errors_end_the_search(
    before: Search,
    input: SearchInput,
    now: u64,
    after: Search,
    action: SearchAction,
)
    requires
        search_steps(before, input, now, after, action),
    ensures
        input matches SearchInput::Recalled { bm25: Err(e), .. } ==> before is Recalling ==> after
            == Search::Stopped && action == SearchAction::Fail(e),
        input matches SearchInput::Recalled { bm25: Ok(_), vector: Err(e) }
            ==> before is Recalling ==> after == Search::Stopped && action == SearchAction::Fail(e),
        input matches SearchInput::Chunks(Err(e)) ==> before is FetchingChunks ==> after
            == Search::Stopped && action == SearchAction::Fail(e),
        input matches SearchInput::Reranked(Err(e)) ==> before is Reranking ==> after
            == Search::Stopped && action == SearchAction::Fail(e),
        input matches SearchInput::Paths(Err(e)) ==> before is FetchingPaths ==> after
            == Search::Stopped && action == SearchAction::Fail(e),
        action is Fail ==> before is Recalling || before is FetchingChunks || before is Reranking
            || before is FetchingPaths,
{
}

/// A search whose events nobody takes any more stops, but for the one event that
/// says that the paths are there.
pub proof fn law_unheard_search_stops(
    before: Search,
    now: u64,
    after: Search,
    action: SearchAction,
)
    requires
        search_steps(before, SearchInput::Sent(false), now, after, action),
        !(before is ReportingPaths),
    ensures
        after == Search::Stopped && action == SearchAction::Stop,
{
}

/// The paths of the documents of all chunks that were found are looked up, each
/// once.
pub proof fn law_all_paths_are_looked_up(
    run: Run,
    selection: Selection,
    now: u64,
    after: Search,
    action: SearchAction,
)
    requires
        search_steps(
            Search::AnnouncingPaths { run, selection },
            SearchInput::Sent(true),
            now,
            after,
            action,
        ),
    ensures
        after == (Search::FetchingPaths { run, selection }),
        action matches SearchAction::FetchPaths(asked) && {
            &&& forall|k: int|
                0 <= k < selection.chunks@.len() ==> exists|i: int|
                    0 <= i < asked@.len() && (#[trigger] asked@[i])@ == (
                    #[trigger] selection.chunks@[k]).doc_id@
            &&& forall|i: int|
                0 <= i < asked@.len() ==> exists|k: int|
                    0 <= k < selection.chunks@.len() && (#[trigger] selection.chunks@[k]).doc_id@
                        == (#[trigger] asked@[i])@
            &&& forall|i: int, j: int|
                0 <= i < j < asked@.len() ==> (#[trigger] asked@[i])@ != (#[trigger] asked@[j])@
        },
{
    if let SearchAction::FetchPaths(asked) = action {
        let views = text::views(asked@);
        let docs = retriever::doc_ids_of(selection.chunks@);
        retriever::law_distinct(docs);
        assert(views.len() == asked@.len());
        assert(docs.len() == selection.chunks@.len());
        assert forall|k: int| 0 <= k < selection.chunks@.len() implies exists|i: int|
            0 <= i < asked@.len() && (#[trigger] asked@[i])@ == (
            #[trigger] selection.chunks@[k]).doc_id@ by {
            assert(docs[k] == selection.chunks@[k].doc_id@);
            assert(docs.contains(docs[k]));
            assert(views.contains(docs[k]));
            let i = choose|i: int| 0 <= i < views.len() && views[i] == docs[k];
            assert(asked@[i]@ == views[i]);
        }
        assert forall|i: int| 0 <= i < asked@.len() implies exists|k: int|
            0 <= k < selection.chunks@.len() && (#[trigger] selection.chunks@[k]).doc_id@ == (
            #[trigger] asked@[i])@ by {
            assert(views[i] == asked@[i]@);
            assert(views.contains(views[i]));
            assert(docs.contains(views[i]));
            let k = choose|k: int| 0 <= k < docs.len() && docs[k] == views[i];
            assert(selection.chunks@[k].doc_id@ == docs[k]);
        }
        assert forall|i: int, j: int| 0 <= i < j < asked@.len() implies (#[trigger] asked@[i])@ != (
        #[trigger] asked@[j])@ by {
            assert(views[i] == asked@[i]@);
            assert(views[j] == asked@[j]@);
        }
    }
}

/// Keyword recall splits the query into words, searches for each of them as it
/// stands, to the depth that it was given, and returns what was found with the
/// time that this took.
pub proof fn law_keyword_recall(
    query: String,
    top_k: usize,
    words: String,
    hits: Vec<ScoredId>,
    times: Seq<u64>,
    states: Seq<Recall>,
    actions: Seq<RecallAction>,
)
    requires
        times.len() == 5 && states.len() == 6 && actions.len() == 5,
        states[0] == (Recall::Bm25 { query, top_k }),
        recall_steps(states[0], RecallInput::Start, times[0], states[1], actions[0]),
        recall_steps(states[1], RecallInput::Sent, times[1], states[2], actions[1]),
        recall_steps(states[2], RecallInput::Segmented(words), times[2], states[3], actions[2]),
        recall_steps(states[3], RecallInput::Found(Ok(hits)), times[3], states[4], actions[3]),
        recall_steps(states[4], RecallInput::Sent, times[4], states[5], actions[4]),
        times[1] <= times[3],
    ensures
        actions[1] == RecallAction::Segment(query),
        actions[2] matches RecallAction::SearchText { query: asked, top_k: depth } && {
            &&& depth == top_k
            &&& asked@ == retriever::sanitized(words@)
        },
        actions[4] matches RecallAction::Return(Ok(found)) && {
            &&& found.hits == hits
            &&& found.bm25_ms == (times[3] - times[1]) / 1_000_000
            &&& found.embed_ms == 0 && found.vector_ms == 0
        },
{
}

/// Vector recall embeds the query as it is, searches for the first vector that
/// comes back, to the depth that it was given, and returns what was found with the
/// times that both took.
pub proof fn law_vector_recall(
    query: String,
    top_k: usize,
    vectors: Vec<Vec<u32>>,
    hits: Vec<ScoredId>,
    times: Seq<u64>,
    states: Seq<Recall>,
    actions: Seq<RecallAction>,
)
    requires
        times.len() == 7 && states.len() == 8 && actions.len() == 7,
        states[0] == (Recall::Vector { query, top_k }),
        recall_steps(states[0], RecallInput::Start, times[0], states[1], actions[0]),
        recall_steps(states[1], RecallInput::Sent, times[1], states[2], actions[1]),
        recall_steps(states[2], RecallInput::Embedded(Ok(vectors)), times[2], states[3], actions[2]),
        vectors@.len() > 0,
        recall_steps(states[3], RecallInput::Sent, times[3], states[4], actions[3]),
        recall_steps(states[4], RecallInput::Sent, times[4], states[5], actions[4]),
        recall_steps(states[5], RecallInput::Found(Ok(hits)), times[5], states[6], actions[5]),
        recall_steps(states[6], RecallInput::Sent, times[6], states[7], actions[6]),
        times[1] <= times[2] && times[4] <= times[5],
    ensures
        actions[1] == RecallAction::Embed(query),
        actions[4] matches RecallAction::SearchVectors { embedding, top_k: depth } && {
            &&& depth == top_k
            &&& embedding@ == vectors@[0]@
        },
        actions[6] matches RecallAction::Return(Ok(found)) && {
            &&& found.hits == hits
            &&& found.embed_ms == (times[2] - times[1]) / 1_000_000
            &&& found.vector_ms == (times[5] - times[4]) / 1_000_000
            &&& found.bm25_ms == 0
        },
{
}

/// What fails in a recall channel is its result, and so is an embedder that gives
/// no vector.
pub proof fn law_errors_end_the_recall(
    before: Recall,
    input: RecallInput,
    now: u64,
    after: Recall,
    action: RecallAction,
)
    requires
        recall_steps(before, input, now, after, action),
    ensures
        input matches RecallInput::Found(Err(e)) ==> before is SearchingText ==> action
            == RecallAction::Return(Err(e)),
        input matches RecallInput::Found(Err(e)) ==> before is SearchingVectors ==> action
            == RecallAction::Return(Err(e)),
        input matches RecallInput::Embedded(Err(e)) ==> before is Embedding ==> action
            == RecallAction::Return(Err(e)),
        input matches RecallInput::Embedded(Ok(vectors)) ==> before is Embedding ==> vectors@.len()
            == 0 ==> action == RecallAction::Return(Err(DocqError::Embed(EmbedError::EmptyResult))),
{
}

} // verus!
