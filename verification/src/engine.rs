//! What the engine decides around its parts.

use vstd::prelude::*;

use crate::config::{DocqConfig, RetrievalConfig};
use crate::error::{DocqError, Result, StoreError, SynthError};
use crate::indexing::Source;
use crate::models::{
    Answer, AskEvent, Collection, Document, EngineStatus, SearchEvent, SearchHit, SearchStats,
};
use crate::reader::{self, PdfReader, TextFileReader};
use crate::reader_registry::{self, ReaderRegistry};
use crate::search::RetrieverConfig;
use crate::text;
use crate::traits::FileReader;
use crate::verbose::Verbose;

verus! {

/// Where an engine works, and how.
pub struct EngineConfig {
    pub workspace_path: String,
    pub model_cache_dir: String,
    pub config: DocqConfig,
    pub verbose: Verbose,
}

/// The settings of an engine.
pub fn engine_config(
    workspace: &str,
    model_cache: &str,
    config: DocqConfig,
    verbose: Verbose,
) -> (r: EngineConfig)
    ensures
        r.workspace_path@ == workspace@,
        r.model_cache_dir@ == model_cache@,
        r.config == config,
        r.verbose == verbose,
{
    EngineConfig {
        workspace_path: workspace.to_string(),
        model_cache_dir: model_cache.to_string(),
        config,
        verbose,
    }
}

/// The settings of the retriever of an engine.
pub fn retriever_config(retrieval: &RetrievalConfig, reranks: bool) -> (r: RetrieverConfig)
    ensures
        r.bm25_top_k == retrieval.bm25_top_k,
        r.vector_top_k == retrieval.vector_top_k,
        r.rrf_k == retrieval.rrf_k,
        r.rerank_top_n == retrieval.rerank_top_n,
        r.reranks == reranks,
{
    RetrieverConfig {
        bm25_top_k: retrieval.bm25_top_k,
        vector_top_k: retrieval.vector_top_k,
        rrf_k: retrieval.rrf_k,
        rerank_top_n: retrieval.rerank_top_n,
        reranks,
    }
}

/// The number of the reader for plain text among the default readers.
pub const TEXT_READER: usize = 0;

/// The number of the reader for PDF among the default readers.
pub const PDF_READER: usize = 1;

/// The readers that an engine has: one for plain text and one for PDF. There is
/// none for Microsoft Word, so `.docx` files are left out of an index.
pub fn default_readers() -> (r: ReaderRegistry)
    ensures
        r@.count == 2,
        r@.readers == Map::<Seq<char>, usize>::empty().insert("txt"@, TEXT_READER).insert(
            "md"@,
            TEXT_READER,
        ).insert("tex"@, TEXT_READER).insert("pdf"@, PDF_READER),
{
    let mut readers = ReaderRegistry::new();
    let plain = TextFileReader::new();
    let pdf = PdfReader::new();
    readers.register(&plain);
    let ghost first = readers@.readers;
    readers.register(&pdf);
    proof {
        reveal_with_fuel(reader_registry::with_extensions, 4);
        let none = Map::<Seq<char>, usize>::empty();
        let a = choose|e: &[&'static str]| #[trigger]
            call_ensures(TextFileReader::extensions, (&plain,), e) && first
                == reader_registry::with_extensions(none, reader::names(e@), e@.len() as int, 0);
        assert(reader::names(a@) == plain.handles());
        assert(reader::names(a@).len() == a@.len());
        let b = choose|e: &[&'static str]| #[trigger]
            call_ensures(PdfReader::extensions, (&pdf,), e) && readers@.readers
                == reader_registry::with_extensions(first, reader::names(e@), e@.len() as int, 1);
        assert(reader::names(b@) == seq!["pdf"@]);
        assert(reader::names(b@).len() == b@.len());
    }
    readers
}

// ---- collections ----

/// The sources to index, one for each collection.
pub fn sources_of(collections: Vec<Collection>) -> (r: Vec<Source>)
    ensures
        r@.len() == collections@.len(),
        forall|i: int|
            0 <= i < r@.len() ==> (#[trigger] r@[i]).id@ == collections@[i].name@ && r@[i].path@
                == collections@[i].path@,
{
    let mut sources: Vec<Source> = Vec::new();
    for c in it: collections
        invariant
            it.seq() == collections@,
            sources@.len() == it.index(),
            forall|i: int|
                0 <= i < it.index() ==> (#[trigger] sources@[i]).id@ == collections@[i].name@
                    && sources@[i].path@ == collections@[i].path@,
    {
        assert(c == collections@[it.index() as int]);
        sources.push(Source { id: c.name, path: c.path });
    }
    sources
}

/// Whether `i` is the first collection of the given name.
pub open spec fn is_first_named(collections: Seq<Collection>, name: Seq<char>, i: int) -> bool {
    &&& 0 <= i < collections.len()
    &&& collections[i].name@ == name
    &&& forall|k: int| 0 <= k < i ==> (#[trigger] collections[k]).name@ != name
}

/// The collection of the given name.
pub fn find_collection(collections: Vec<Collection>, name: &str) -> (r: Result<Collection>)
    ensures
        match r {
            Ok(c) => exists|i: int| #[trigger]
                is_first_named(collections@, name@, i) && c == collections@[i],
            Err(e) => (forall|k: int|
                0 <= k < collections@.len() ==> (#[trigger] collections@[k]).name@ != name@) && (
            e matches DocqError::Store(StoreError::NotFound(n)) && n@ == name@),
        },
{
    for c in it: collections
        invariant
            it.seq() == collections@,
            forall|k: int| 0 <= k < it.index() ==> (#[trigger] collections@[k]).name@ != name@,
    {
        let ghost i = it.index() as int;
        assert(c == collections@[i]);
        if text::same(c.name.as_str(), name) {
            assert(is_first_named(collections@, name@, i));
            return Ok(c);
        }
    }
    Err(DocqError::Store(StoreError::NotFound(name.to_string())))
}

/// The failure to find out where a path leads.
pub fn canonicalize_failed(path: &str, message: &str) -> (r: DocqError)
    ensures
        r matches DocqError::Store(StoreError::Io(m)) && m@ == "canonicalize "@ + path@ + ": "@
            + message@,
{
    let mut m = text::concat3("canonicalize ", path, ": ");
    m.append(message);
    DocqError::Store(StoreError::Io(m))
}

/// The failure to create the workspace.
pub fn create_workspace_failed(message: &str) -> (r: DocqError)
    ensures
        r matches DocqError::Store(StoreError::Io(m)) && m@ == "create workspace dir: "@ + message@,
{
    DocqError::Store(StoreError::Io(text::concat("create workspace dir: ", message)))
}

/// Whether a path may be added as a file.
pub fn check_file(path: &str, is_file: bool) -> (r: Result<()>)
    ensures
        match r {
            Ok(_) => is_file,
            Err(e) => !is_file && (e matches DocqError::Store(StoreError::Io(m)) && m@ == path@
                + " is not a file"@),
        },
{
    if is_file {
        Ok(())
    } else {
        Err(DocqError::Store(StoreError::Io(text::concat(path, " is not a file"))))
    }
}

/// What an engine holds.
pub fn status(documents: &Vec<Document>, collections: Vec<Collection>, chunks: usize) -> (r:
    EngineStatus)
    ensures
        r.documents == documents@.len(),
        r.chunks == chunks,
        r.collections == collections,
{
    EngineStatus { documents: documents.len(), chunks, collections }
}

// ---- collecting events ----

/// The hits, given those so far and the next event: those of the last completion
/// count.
pub fn collect_hits(hits: Vec<SearchHit>, item: Result<SearchEvent>) -> (r: Result<Vec<SearchHit>>)
    ensures
        match item {
            Ok(SearchEvent::Completed { hits: found, .. }) => r == Ok::<Vec<SearchHit>, DocqError>(
                found,
            ),
            Ok(_) => r == Ok::<Vec<SearchHit>, DocqError>(hits),
            Err(e) => r == Err::<Vec<SearchHit>, DocqError>(e),
        },
{
    match item {
        Ok(SearchEvent::Completed { hits: found, .. }) => Ok(found),
        Ok(_) => Ok(hits),
        Err(e) => Err(e),
    }
}

/// What an event of a search is while a question is answered.
#[derive(Debug)]
pub enum Forwarded {
    /// Something to tell the one who asks.
    Event(AskEvent),
    /// The passages to answer from.
    Passages { hits: Vec<SearchHit>, stats: SearchStats },
}

/// What an event of a search is while a question is answered: all but the last
/// are passed on.
pub fn forward(event: SearchEvent) -> (r: Forwarded)
    ensures
        r == match event {
            SearchEvent::ModelDownloadStart { role, repo_id, filename } => Forwarded::Event(
                AskEvent::ModelDownloadStart { role, repo_id, filename },
            ),
            SearchEvent::ModelDownloadComplete { role, elapsed_ms } => Forwarded::Event(
                AskEvent::ModelDownloadComplete { role, elapsed_ms },
            ),
            SearchEvent::StageStarted { stage } => Forwarded::Event(
                AskEvent::StageStarted { stage },
            ),
            SearchEvent::StageFinished { stage, elapsed_ms } => Forwarded::Event(
                AskEvent::StageFinished { stage, elapsed_ms },
            ),
            SearchEvent::Completed { hits, stats } => Forwarded::Passages { hits, stats },
        },
{
    match event {
        SearchEvent::ModelDownloadStart { role, repo_id, filename } => Forwarded::Event(
            AskEvent::ModelDownloadStart { role, repo_id, filename },
        ),
        SearchEvent::ModelDownloadComplete { role, elapsed_ms } => Forwarded::Event(
            AskEvent::ModelDownloadComplete { role, elapsed_ms },
        ),
        SearchEvent::StageStarted { stage } => Forwarded::Event(AskEvent::StageStarted { stage }),
        SearchEvent::StageFinished { stage, elapsed_ms } => Forwarded::Event(
            AskEvent::StageFinished { stage, elapsed_ms },
        ),
        SearchEvent::Completed { hits, stats } => Forwarded::Passages { hits, stats },
    }
}

/// The answer, given the one so far and the next event: the last one counts.
pub fn collect_answer(answer: Option<Answer>, item: Result<AskEvent>) -> (r: Result<Option<Answer>>)
    ensures
        match item {
            Ok(AskEvent::AnswerComplete { answer: a, .. }) => r == Ok::<Option<Answer>, DocqError>(
                Some(a),
            ),
            Ok(_) => r == Ok::<Option<Answer>, DocqError>(answer),
            Err(e) => r == Err::<Option<Answer>, DocqError>(e),
        },
{
    match item {
        Ok(AskEvent::AnswerComplete { answer: a, .. }) => Ok(Some(a)),
        Ok(_) => Ok(answer),
        Err(e) => Err(e),
    }
}

/// The answer, when all events are in. It is an error if there is none.
pub fn answer_or_error(answer: Option<Answer>) -> (r: Result<Answer>)
    ensures
        match answer {
            Some(a) => r == Ok::<Answer, DocqError>(a),
            None => r matches Err(DocqError::Synth(SynthError::Other(m))) && m@
                == "ask stream ended without AnswerComplete"@,
        },
{
    match answer {
        Some(a) => Ok(a),
        None => Err(
            DocqError::Synth(
                SynthError::Other("ask stream ended without AnswerComplete".to_string()),
            ),
        ),
    }
}

} // verus!
