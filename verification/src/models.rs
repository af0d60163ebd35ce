//! Shared data types.

use std::ops::Range;

use vstd::prelude::*;

use crate::score::Score;
use crate::text;

verus! {

/// A point in time: seconds since the Unix epoch, and nanoseconds on top.
#[derive(Debug, Clone, Copy, PartialEq, Eq, Structural)]
pub struct Timestamp {
    pub secs: i64,
    pub nanos: u32,
}

#[derive(Debug)]
pub struct Document {
    /// Stable document identifier, derived from the file path so that the same
    /// path always maps to the same `id` across reindexes.
    pub id: String,
    /// SHA-256 of the content; drives incremental reindexing.
    pub content_hash: String,
    pub content_size: usize,
    pub indexed_at: Timestamp,
}

impl Clone for Document {
    fn clone(&self) -> (r: Self)
        ensures
            r == *self,
    {
        Document {
            id: self.id.clone(),
            content_hash: self.content_hash.clone(),
            content_size: self.content_size,
            indexed_at: self.indexed_at,
        }
    }
}

#[derive(Debug)]
pub struct Chunk {
    /// SHA-256 of `text`; enables content-addressed deduplication.
    pub id: String,
    /// `Document.id` this chunk belongs to.
    pub doc_id: String,
    /// Full original text actually embedded.
    pub text: String,
    pub byte_range: Range<usize>,
}

impl Clone for Chunk {
    fn clone(&self) -> (r: Self)
        ensures
            r == *self,
    {
        Chunk {
            id: self.id.clone(),
            doc_id: self.doc_id.clone(),
            text: self.text.clone(),
            byte_range: self.byte_range.start..self.byte_range.end,
        }
    }
}

/// A piece of a document that may become a [`Chunk`].
#[derive(Debug)]
pub struct ChunkCandidate {
    pub text: String,
    pub byte_range: Range<usize>,
}

impl Clone for ChunkCandidate {
    fn clone(&self) -> (r: Self)
        ensures
            r == *self,
    {
        ChunkCandidate {
            text: self.text.clone(),
            byte_range: self.byte_range.start..self.byte_range.end,
        }
    }
}

/// A chunk id with its score in one ranking.
#[derive(Debug)]
pub struct ScoredId {
    pub id: String,
    pub score: Score,
}

impl Clone for ScoredId {
    fn clone(&self) -> (r: Self)
        ensures
            r == *self,
    {
        ScoredId { id: self.id.clone(), score: self.score }
    }
}

/// The scores that led to a hit, one for each stage that gave one. Higher is
/// better in all of them.
#[derive(Debug, Clone, Copy, PartialEq, Eq, Structural)]
pub struct ScoreExplain {
    pub bm25_score: Option<Score>,
    pub vector_score: Option<Score>,
    pub rrf_score: Option<Score>,
    pub rerank_score: Option<Score>,
    pub final_score: Score,
}

impl Default for ScoreExplain {
    fn default() -> (r: Self)
        ensures
            r.bm25_score is None,
            r.vector_score is None,
            r.rrf_score is None,
            r.rerank_score is None,
            r.final_score.bits == 0,
    {
        ScoreExplain {
            bm25_score: None,
            vector_score: None,
            rrf_score: None,
            rerank_score: None,
            final_score: Score::zero(),
        }
    }
}

#[derive(Debug)]
pub struct SearchHit {
    pub chunk: Chunk,
    /// File system path of the source document.
    pub file_path: String,
    pub score: Score,
    pub explain: ScoreExplain,
}

impl Clone for SearchHit {
    fn clone(&self) -> (r: Self)
        ensures
            r == *self,
    {
        SearchHit {
            chunk: self.chunk.clone(),
            file_path: self.file_path.clone(),
            score: self.score,
            explain: self.explain,
        }
    }
}

#[derive(Debug, Clone, Copy, PartialEq, Eq, Hash, Structural)]
pub enum SearchStage {
    EmbedQuery,
    Bm25Recall,
    VectorRecall,
    Fusion,
    Rerank,
    ResolvePaths,
    Assemble,
}

impl SearchStage {
    pub open spec fn name(self) -> Seq<char> {
        match self {
            SearchStage::EmbedQuery => "embed_query"@,
            SearchStage::Bm25Recall => "bm25_recall"@,
            SearchStage::VectorRecall => "vector_recall"@,
            SearchStage::Fusion => "fusion"@,
            SearchStage::Rerank => "rerank"@,
            SearchStage::ResolvePaths => "resolve_paths"@,
            SearchStage::Assemble => "assemble"@,
        }
    }

    pub fn as_str(self) -> (r: &'static str)
        ensures
            r@ == self.name(),
    {
        match self {
            SearchStage::EmbedQuery => "embed_query",
            SearchStage::Bm25Recall => "bm25_recall",
            SearchStage::VectorRecall => "vector_recall",
            SearchStage::Fusion => "fusion",
            SearchStage::Rerank => "rerank",
            SearchStage::ResolvePaths => "resolve_paths",
            SearchStage::Assemble => "assemble",
        }
    }
}

/// Aggregated timings of one hybrid-search run, in milliseconds.
#[derive(Debug, Clone, Copy, PartialEq, Eq, Structural)]
pub struct SearchStats {
    pub total_ms: u64,
    pub embed_ms: u64,
    pub bm25_ms: u64,
    pub vector_ms: u64,
    pub fusion_ms: u64,
    pub rerank_ms: u64,
}

pub open spec fn no_stats() -> SearchStats {
    SearchStats { total_ms: 0, embed_ms: 0, bm25_ms: 0, vector_ms: 0, fusion_ms: 0, rerank_ms: 0 }
}

impl Default for SearchStats {
    fn default() -> (r: Self)
        ensures
            r == no_stats(),
    {
        SearchStats {
            total_ms: 0,
            embed_ms: 0,
            bm25_ms: 0,
            vector_ms: 0,
            fusion_ms: 0,
            rerank_ms: 0,
        }
    }
}

/// Events emitted by the hybrid search pipeline, in order. The last one is
/// `Completed`, unless the search fails.
#[derive(Debug)]
pub enum SearchEvent {
    /// A model file is not in the cache and is being downloaded.
    ModelDownloadStart { role: ModelRole, repo_id: String, filename: String },
    /// A model file has been downloaded.
    ModelDownloadComplete { role: ModelRole, elapsed_ms: u64 },
    /// A pipeline stage started.
    StageStarted { stage: SearchStage },
    /// A pipeline stage finished; carries the stage duration.
    StageFinished { stage: SearchStage, elapsed_ms: u64 },
    /// Retrieval finished: the final ranked hits.
    Completed { hits: Vec<SearchHit>, stats: SearchStats },
}

/// Events emitted while building or rebuilding an index.
#[derive(Debug, PartialEq)]
pub enum IndexEvent {
    /// A model file is not in the cache and is being downloaded.
    ModelDownloadStart { role: ModelRole, repo_id: String, filename: String },
    /// A model file has been downloaded.
    ModelDownloadComplete { role: ModelRole, elapsed_ms: u64 },
    /// Indexing started; number of sources or files to process.
    ScanStart { total_sources: usize },
    /// A source is about to be indexed.
    SourceStarted { source_id: String },
    /// A file was parsed into chunks.
    FileParsed { source_id: String, path: String, chunks: usize },
    /// A batch of chunks is being embedded.
    EmbeddingBatch { count: usize },
    /// The index store is being written.
    WritingStore,
    /// A source finished indexing, with the number of chunks indexed for it.
    SourceComplete { source_id: String, chunks: usize },
    /// Indexing is complete.
    Complete { files: usize, chunks: usize, files_skipped: usize, files_removed: usize },
    /// An error occurred.
    Error { message: String },
}

/// Events emitted while a question is answered, in order. The last one is
/// `AnswerComplete`, unless answering fails.
#[derive(Debug)]
pub enum AskEvent {
    /// A model file is not in the cache and is being downloaded.
    ModelDownloadStart { role: ModelRole, repo_id: String, filename: String },
    /// A model file has been downloaded.
    ModelDownloadComplete { role: ModelRole, elapsed_ms: u64 },
    /// A retrieval stage started.
    StageStarted { stage: SearchStage },
    /// A retrieval stage finished; carries the stage duration.
    StageFinished { stage: SearchStage, elapsed_ms: u64 },
    /// A piece of the answer, as it is generated.
    Token { delta: String },
    /// The answer with its sources.
    AnswerComplete { answer: Answer, stats: SearchStats },
}

#[derive(Debug)]
pub struct ScoredChunk {
    pub chunk: Chunk,
    pub score: Score,
}

impl Clone for ScoredChunk {
    fn clone(&self) -> (r: Self)
        ensures
            r == *self,
    {
        ScoredChunk { chunk: self.chunk.clone(), score: self.score }
    }
}

#[derive(Debug)]
pub struct Answer {
    pub text: String,
    pub citations: Vec<Citation>,
}

#[derive(Debug)]
pub struct Citation {
    /// Marker as printed in the answer, e.g. `[1]`.
    pub marker: String,
    /// Human-readable source, e.g. `docs/a.txt (bytes 120-512)`.
    pub source: String,
}

impl Clone for Citation {
    fn clone(&self) -> (r: Self)
        ensures
            r == *self,
    {
        Citation { marker: self.marker.clone(), source: self.source.clone() }
    }
}

#[derive(Debug, Clone, Copy, PartialEq, Eq, Hash, Structural)]
pub enum ModelRole {
    Embedding,
    Reranker,
    Chat,
    Tokenizer,
}

impl ModelRole {
    pub open spec fn name(self) -> Seq<char> {
        match self {
            ModelRole::Embedding => "embedding"@,
            ModelRole::Reranker => "reranker"@,
            ModelRole::Chat => "chat"@,
            ModelRole::Tokenizer => "tokenizer"@,
        }
    }

    pub fn as_str(self) -> (r: &'static str)
        ensures
            r@ == self.name(),
    {
        match self {
            ModelRole::Embedding => "embedding",
            ModelRole::Reranker => "reranker",
            ModelRole::Chat => "chat",
            ModelRole::Tokenizer => "tokenizer",
        }
    }
}

/// The role of the given name.
pub open spec fn role_named(s: Seq<char>) -> Option<ModelRole> {
    if s == ModelRole::Embedding.name() {
        Some(ModelRole::Embedding)
    } else if s == ModelRole::Reranker.name() {
        Some(ModelRole::Reranker)
    } else if s == ModelRole::Chat.name() {
        Some(ModelRole::Chat)
    } else if s == ModelRole::Tokenizer.name() {
        Some(ModelRole::Tokenizer)
    } else {
        None
    }
}

impl ModelRole {
    /// The role of the given name.
    pub fn parse(s: &str) -> (r: std::result::Result<Self, String>)
        ensures
            match r {
                Ok(role) => role_named(s@) == Some(role),
                Err(e) => role_named(s@) is None && e@ == "unknown model role: "@ + s@,
            },
    {
        if text::same(s, "embedding") {
            Ok(ModelRole::Embedding)
        } else if text::same(s, "reranker") {
            Ok(ModelRole::Reranker)
        } else if text::same(s, "chat") {
            Ok(ModelRole::Chat)
        } else if text::same(s, "tokenizer") {
            Ok(ModelRole::Tokenizer)
        } else {
            Err(text::concat("unknown model role: ", s))
        }
    }
}

impl std::str::FromStr for ModelRole {
    type Err = String;

    fn from_str(s: &str) -> (r: std::result::Result<Self, String>)
        ensures
            match r {
                Ok(role) => role_named(s@) == Some(role),
                Err(e) => role_named(s@) is None && e@ == "unknown model role: "@ + s@,
            },
    {
        ModelRole::parse(s)
    }
}

/// Each role is the one that its name names.
pub proof fn law_role_name_round_trip(role: ModelRole)
    ensures
        role_named(role.name()) == Some(role),
{
    reveal_strlit("embedding");
    reveal_strlit("reranker");
    reveal_strlit("chat");
    reveal_strlit("tokenizer");
    assert(ModelRole::Embedding.name().len() == 9);
    assert(ModelRole::Tokenizer.name().len() == 9);
    assert(ModelRole::Embedding.name()[0] == 'e');
    assert(ModelRole::Tokenizer.name()[0] == 't');
    assert(ModelRole::Reranker.name().len() == 8);
    assert(ModelRole::Chat.name().len() == 4);
}

#[derive(Debug)]
pub struct ModelSpec {
    pub role: ModelRole,
    pub repo_id: String,
    pub filename: String,
    pub revision: String,
    pub checksum: Option<String>,
}

impl Clone for ModelSpec {
    fn clone(&self) -> (r: Self)
        ensures
            r == *self,
    {
        let checksum: Option<String> = match &self.checksum {
            Some(c) => Some(c.clone()),
            None => None,
        };
        ModelSpec {
            role: self.role,
            repo_id: self.repo_id.clone(),
            filename: self.filename.clone(),
            revision: self.revision.clone(),
            checksum,
        }
    }
}

/// How a language model generates text.
#[derive(Debug)]
pub struct LlmConfig {
    /// Size of the context window, in tokens.
    pub n_ctx: u32,
    /// Sampling temperature, as the bits of an `f32`.
    pub temperature: u32,
    /// Nucleus sampling threshold, as the bits of an `f32`.
    pub top_p: u32,
    /// Maximum number of generated tokens.
    pub max_tokens: usize,
    pub seed: u32,
    pub system_prompt: String,
}

/// The bits of 0.7.
pub const DEFAULT_TEMPERATURE: u32 = 0x3f33_3333;

/// The bits of 0.9.
pub const DEFAULT_TOP_P: u32 = 0x3f66_6666;

pub const DEFAULT_N_CTX: u32 = 8192;

pub const DEFAULT_MAX_TOKENS: usize = 512;

pub const DEFAULT_SEED: u32 = 0;

pub const DEFAULT_SYSTEM_PROMPT: &'static str = "You are a helpful assistant.";

impl Default for LlmConfig {
    fn default() -> (r: Self)
        ensures
            r.n_ctx == DEFAULT_N_CTX,
            r.temperature == DEFAULT_TEMPERATURE,
            r.top_p == DEFAULT_TOP_P,
            r.max_tokens == DEFAULT_MAX_TOKENS,
            r.seed == DEFAULT_SEED,
            r.system_prompt@ == DEFAULT_SYSTEM_PROMPT@,
    {
        LlmConfig {
            n_ctx: DEFAULT_N_CTX,
            temperature: DEFAULT_TEMPERATURE,
            top_p: DEFAULT_TOP_P,
            max_tokens: DEFAULT_MAX_TOKENS,
            seed: DEFAULT_SEED,
            system_prompt: DEFAULT_SYSTEM_PROMPT.to_string(),
        }
    }
}

impl Clone for LlmConfig {
    fn clone(&self) -> (r: Self)
        ensures
            r == *self,
    {
        LlmConfig {
            n_ctx: self.n_ctx,
            temperature: self.temperature,
            top_p: self.top_p,
            max_tokens: self.max_tokens,
            seed: self.seed,
            system_prompt: self.system_prompt.clone(),
        }
    }
}

#[derive(Debug)]
pub struct Collection {
    pub name: String,
    pub path: String,
}

impl Clone for Collection {
    fn clone(&self) -> (r: Self)
        ensures
            r == *self,
    {
        Collection { name: self.name.clone(), path: self.path.clone() }
    }
}

#[derive(Debug)]
pub struct DocumentSource {
    pub path: String,
    pub content: String,
}

impl Clone for DocumentSource {
    fn clone(&self) -> (r: Self)
        ensures
            r == *self,
    {
        DocumentSource { path: self.path.clone(), content: self.content.clone() }
    }
}

#[derive(Debug)]
pub struct EngineStatus {
    pub documents: usize,
    pub chunks: usize,
    pub collections: Vec<Collection>,
}

/// The roles and the stages of a search have each their own name.
pub proof fn law_names()
    ensures
        ModelRole::Embedding.name() == "embedding"@,
        ModelRole::Reranker.name() == "reranker"@,
        ModelRole::Chat.name() == "chat"@,
        ModelRole::Tokenizer.name() == "tokenizer"@,
        SearchStage::EmbedQuery.name() == "embed_query"@,
        SearchStage::Bm25Recall.name() == "bm25_recall"@,
        SearchStage::VectorRecall.name() == "vector_recall"@,
        SearchStage::Fusion.name() == "fusion"@,
        SearchStage::Rerank.name() == "rerank"@,
        SearchStage::ResolvePaths.name() == "resolve_paths"@,
        SearchStage::Assemble.name() == "assemble"@,
{
}

/// A name names a role exactly if it is the name of this role.
pub proof fn law_only_names_name_roles(s: Seq<char>)
    ensures
        role_named(s) matches Some(role) ==> s == role.name(),
        role_named(s) is None ==> s != "embedding"@ && s != "reranker"@ && s != "chat"@ && s
            != "tokenizer"@,
{
}

} // verus!
