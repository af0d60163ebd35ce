//! Configuration.
//!
//! The configuration file says which models to use, how documents are chunked,
//! and how retrieval and generation behave. The caller reads and parses it.

use vstd::prelude::*;

use crate::error::LlmError;
use crate::models::{
    LlmConfig, ModelRole, ModelSpec, DEFAULT_MAX_TOKENS, DEFAULT_N_CTX, DEFAULT_SEED,
    DEFAULT_SYSTEM_PROMPT,
};
use crate::registry;
use crate::text;

verus! {

/// Name of the configuration file.
pub const CONFIG_FILE_NAME: &'static str = "config.toml";

// ---- models ----

/// Where to get a model.
#[derive(Debug)]
pub struct ModelEntry {
    pub repo_id: String,
    pub filename: String,
    pub revision: String,
    pub tokenizer_filename: String,
}

/// What a [`ModelEntry`] says.
pub struct EntryView {
    pub repo_id: Seq<char>,
    pub filename: Seq<char>,
    pub revision: Seq<char>,
    pub tokenizer_filename: Seq<char>,
}

impl View for ModelEntry {
    type V = EntryView;

    open spec fn view(&self) -> EntryView {
        EntryView {
            repo_id: self.repo_id@,
            filename: self.filename@,
            revision: self.revision@,
            tokenizer_filename: self.tokenizer_filename@,
        }
    }
}

/// The newest version of a model file, with the default tokenizer.
pub open spec fn newest(repo_id: Seq<char>, filename: Seq<char>) -> EntryView {
    EntryView {
        repo_id,
        filename,
        revision: registry::MAIN_REVISION@,
        tokenizer_filename: registry::BGE_SMALL_ZH_V1_5_TOKENIZER_FILE@,
    }
}

/// The tokenizer file of a model that names none.
pub fn default_tokenizer_filename() -> (r: String)
    ensures
        r@ == registry::BGE_SMALL_ZH_V1_5_TOKENIZER_FILE@,
{
    registry::BGE_SMALL_ZH_V1_5_TOKENIZER_FILE.to_string()
}

impl ModelEntry {
    fn newest(repo_id: &str, filename: &str) -> (r: Self)
        ensures
            r@ == newest(repo_id@, filename@),
    {
        ModelEntry {
            repo_id: repo_id.to_string(),
            filename: filename.to_string(),
            revision: registry::MAIN_REVISION.to_string(),
            tokenizer_filename: default_tokenizer_filename(),
        }
    }

    /// The model file, in the given role.
    pub fn to_spec(&self, role: ModelRole) -> (r: ModelSpec)
        ensures
            r.role == role,
            r.repo_id@ == self.repo_id@,
            r.filename@ == self.filename@,
            r.revision@ == self.revision@,
            r.checksum is None,
    {
        ModelSpec {
            role,
            repo_id: self.repo_id.clone(),
            filename: self.filename.clone(),
            revision: self.revision.clone(),
            checksum: None,
        }
    }

    /// The tokenizer of the model: another file at the same revision of the same
    /// repository.
    pub fn to_tokenizer_spec(&self) -> (r: ModelSpec)
        ensures
            r.role == ModelRole::Tokenizer,
            r.repo_id@ == self.repo_id@,
            r.filename@ == self.tokenizer_filename@,
            r.revision@ == self.revision@,
            r.checksum is None,
    {
        ModelSpec {
            role: ModelRole::Tokenizer,
            repo_id: self.repo_id.clone(),
            filename: self.tokenizer_filename.clone(),
            revision: self.revision.clone(),
            checksum: None,
        }
    }
}

impl Clone for ModelEntry {
    fn clone(&self) -> (r: Self)
        ensures
            r == *self,
    {
        ModelEntry {
            repo_id: self.repo_id.clone(),
            filename: self.filename.clone(),
            revision: self.revision.clone(),
            tokenizer_filename: self.tokenizer_filename.clone(),
        }
    }
}

impl Default for ModelEntry {
    fn default() -> (r: Self)
        ensures
            r@ == newest(registry::BGE_SMALL_ZH_V1_5_REPO@, registry::BGE_SMALL_ZH_V1_5_FILE@),
    {
        ModelEntry::newest(registry::BGE_SMALL_ZH_V1_5_REPO, registry::BGE_SMALL_ZH_V1_5_FILE)
    }
}

/// The models to use.
#[derive(Debug)]
pub struct ModelsConfig {
    pub embedding: ModelEntry,
    pub reranker: ModelEntry,
    pub llm: ModelEntry,
}

/// Whether the models are the default ones.
pub open spec fn are_default_models(m: ModelsConfig) -> bool {
    &&& m.embedding@ == newest(
        registry::BGE_SMALL_ZH_V1_5_REPO@,
        registry::BGE_SMALL_ZH_V1_5_FILE@,
    )
    &&& m.reranker@ == newest(
        registry::RERANKER_REPO_JINA_V1_TURBO_EN@,
        registry::RERANKER_JINA_V1_TURBO_EN_FILE@,
    )
    &&& m.llm@ == newest(
        registry::QWEN2_5_3B_INSTRUCT_GGUF_REPO@,
        registry::QWEN2_5_3B_INSTRUCT_Q4_K_M_FILE@,
    )
}

impl Clone for ModelsConfig {
    fn clone(&self) -> (r: Self)
        ensures
            r == *self,
    {
        ModelsConfig {
            embedding: self.embedding.clone(),
            reranker: self.reranker.clone(),
            llm: self.llm.clone(),
        }
    }
}

impl Default for ModelsConfig {
    fn default() -> (r: Self)
        ensures
            are_default_models(r),
    {
        ModelsConfig {
            embedding: ModelEntry::default(),
            reranker: ModelEntry::newest(
                registry::RERANKER_REPO_JINA_V1_TURBO_EN,
                registry::RERANKER_JINA_V1_TURBO_EN_FILE,
            ),
            llm: ModelEntry::newest(
                registry::QWEN2_5_3B_INSTRUCT_GGUF_REPO,
                registry::QWEN2_5_3B_INSTRUCT_Q4_K_M_FILE,
            ),
        }
    }
}

/// The default configuration names the default models.
pub proof fn law_default_models(m: ModelsConfig, embedding: ModelSpec, reranker: ModelSpec, llm: ModelSpec)
    requires
        are_default_models(m),
        registry::is_model(
            embedding,
            ModelRole::Embedding,
            registry::BGE_SMALL_ZH_V1_5_REPO@,
            registry::BGE_SMALL_ZH_V1_5_FILE@,
        ),
        registry::is_model(
            reranker,
            ModelRole::Reranker,
            registry::RERANKER_REPO_JINA_V1_TURBO_EN@,
            registry::RERANKER_JINA_V1_TURBO_EN_FILE@,
        ),
        registry::is_model(
            llm,
            ModelRole::Chat,
            registry::QWEN2_5_3B_INSTRUCT_GGUF_REPO@,
            registry::QWEN2_5_3B_INSTRUCT_Q4_K_M_FILE@,
        ),
    ensures
        m.embedding@.repo_id == embedding.repo_id@ && m.embedding@.filename == embedding.filename@,
        m.embedding@.revision == embedding.revision@,
        m.reranker@.repo_id == reranker.repo_id@ && m.reranker@.filename == reranker.filename@,
        m.reranker@.revision == reranker.revision@,
        m.llm@.repo_id == llm.repo_id@ && m.llm@.filename == llm.filename@,
        m.llm@.revision == llm.revision@,
{
}

// ---- indexing and retrieval ----

/// How documents are chunked, in tokens.
#[derive(Debug, Clone, Copy, PartialEq, Eq, Structural)]
pub struct IndexingConfig {
    pub chunk_size: usize,
    pub chunk_overlap: usize,
}

impl Default for IndexingConfig {
    fn default() -> (r: Self)
        ensures
            r.chunk_size == registry::BGE_SMALL_ZH_V1_5_MAX_TOKENS,
            r.chunk_overlap == registry::BGE_SMALL_ZH_V1_5_MAX_TOKENS / 10,
    {
        IndexingConfig {
            chunk_size: registry::BGE_SMALL_ZH_V1_5_MAX_TOKENS,
            chunk_overlap: registry::BGE_SMALL_ZH_V1_5_MAX_TOKENS / 10,
        }
    }
}

/// How many passages each stage of a search takes.
#[derive(Debug, Clone, Copy, PartialEq, Eq, Structural)]
pub struct RetrievalConfig {
    pub bm25_top_k: usize,
    pub vector_top_k: usize,
    pub rrf_k: usize,
    pub rerank_top_n: usize,
}

impl Default for RetrievalConfig {
    fn default() -> (r: Self)
        ensures
            r == (RetrievalConfig {
                bm25_top_k: 100,
                vector_top_k: 100,
                rrf_k: 60,
                rerank_top_n: 20,
            }),
    {
        RetrievalConfig { bm25_top_k: 100, vector_top_k: 100, rrf_k: 60, rerank_top_n: 20 }
    }
}

// ---- generation ----

/// How answers are generated.
#[derive(Debug)]
pub struct LlmGenerationConfig {
    /// A decimal number, kept as text so that it is written back as it was.
    pub temperature: String,
    /// A decimal number, kept as text so that it is written back as it was.
    pub top_p: String,
    pub max_tokens: usize,
    pub n_ctx: u32,
    pub seed: u32,
    pub system_prompt: String,
}

/// Whether the settings are the default ones.
pub open spec fn are_default_settings(c: LlmGenerationConfig) -> bool {
    &&& c.temperature@ == "0.7"@
    &&& c.top_p@ == "0.9"@
    &&& c.max_tokens == DEFAULT_MAX_TOKENS
    &&& c.n_ctx == DEFAULT_N_CTX
    &&& c.seed == DEFAULT_SEED
    &&& c.system_prompt@ == DEFAULT_SYSTEM_PROMPT@
}

impl Clone for LlmGenerationConfig {
    fn clone(&self) -> (r: Self)
        ensures
            r == *self,
    {
        LlmGenerationConfig {
            temperature: self.temperature.clone(),
            top_p: self.top_p.clone(),
            max_tokens: self.max_tokens,
            n_ctx: self.n_ctx,
            seed: self.seed,
            system_prompt: self.system_prompt.clone(),
        }
    }
}

impl Default for LlmGenerationConfig {
    fn default() -> (r: Self)
        ensures
            are_default_settings(r),
    {
        LlmGenerationConfig {
            temperature: "0.7".to_string(),
            top_p: "0.9".to_string(),
            max_tokens: DEFAULT_MAX_TOKENS,
            n_ctx: DEFAULT_N_CTX,
            seed: DEFAULT_SEED,
            system_prompt: DEFAULT_SYSTEM_PROMPT.to_string(),
        }
    }
}

impl LlmGenerationConfig {
    /// The settings for the language model, given what came of reading
    /// `temperature` and `top_p` as numbers: the bits of each, or why it is none.
    pub fn to_llm_config(
        self,
        temperature: std::result::Result<u32, String>,
        top_p: std::result::Result<u32, String>,
    ) -> (r: std::result::Result<LlmConfig, LlmError>)
        ensures
            match (temperature, top_p) {
                (Ok(t), Ok(p)) => r == Ok::<LlmConfig, LlmError>(
                    LlmConfig {
                        n_ctx: self.n_ctx,
                        temperature: t,
                        top_p: p,
                        max_tokens: self.max_tokens,
                        seed: self.seed,
                        system_prompt: self.system_prompt,
                    },
                ),
                (Err(e), _) => r matches Err(LlmError::InvalidConfig(m)) && m@
                    == "invalid temperature: "@ + e@,
                (Ok(_), Err(e)) => r matches Err(LlmError::InvalidConfig(m)) && m@
                    == "invalid top_p: "@ + e@,
            },
    {
        let temperature: u32 = match temperature {
            Ok(t) => t,
            Err(e) => {
                let message = text::concat("invalid temperature: ", e.as_str());
                return Err(LlmError::InvalidConfig(message));
            },
        };
        let top_p: u32 = match top_p {
            Ok(p) => p,
            Err(e) => {
                let message = text::concat("invalid top_p: ", e.as_str());
                return Err(LlmError::InvalidConfig(message));
            },
        };
        Ok(
            LlmConfig {
                n_ctx: self.n_ctx,
                temperature,
                top_p,
                max_tokens: self.max_tokens,
                seed: self.seed,
                system_prompt: self.system_prompt,
            },
        )
    }
}

// ---- logging ----

/// What is logged, and where to.
#[derive(Debug)]
pub struct LoggingConfig {
    /// Log level filter, such as `info`, or one for each target, such as
    /// `semquery=debug,tokenizers=info`.
    pub level: String,
    /// Log file. A relative path is resolved against the workspace.
    pub file: Option<String>,
    /// Size in megabytes from which on the log file is rotated.
    pub rotation_size_mb: usize,
    /// Number of rotated log files to keep.
    pub max_files: usize,
    /// Whether messages are printed to the terminal too.
    pub duplicate_to_stderr: bool,
}

/// Whether logging is the default.
pub open spec fn is_default_logging(c: LoggingConfig) -> bool {
    &&& c.level@ == "info"@
    &&& c.file is None
    &&& c.rotation_size_mb == 10
    &&& c.max_files == 5
    &&& !c.duplicate_to_stderr
}

impl Clone for LoggingConfig {
    fn clone(&self) -> (r: Self)
        ensures
            r == *self,
    {
        let file: Option<String> = match &self.file {
            Some(f) => Some(f.clone()),
            None => None,
        };
        LoggingConfig {
            level: self.level.clone(),
            file,
            rotation_size_mb: self.rotation_size_mb,
            max_files: self.max_files,
            duplicate_to_stderr: self.duplicate_to_stderr,
        }
    }
}

impl Default for LoggingConfig {
    fn default() -> (r: Self)
        ensures
            is_default_logging(r),
    {
        LoggingConfig {
            level: "info".to_string(),
            file: None,
            rotation_size_mb: 10,
            max_files: 5,
            duplicate_to_stderr: false,
        }
    }
}

/// Name of the log file, where none is given.
pub const LOG_FILE_NAME: &'static str = "semq.log";

impl LoggingConfig {
    /// The log file: the one asked for on the command line, or else the one in
    /// the configuration, or else the default one. A relative path is resolved
    /// against the workspace.
    pub fn log_file(&self, asked_for: Option<&str>) -> (r: String)
        ensures
            r@ == match (asked_for, self.file) {
                (Some(f), _) => f@,
                (None, Some(f)) => f@,
                (None, None) => LOG_FILE_NAME@,
            },
    {
        match asked_for {
            Some(f) => f.to_string(),
            None => match &self.file {
                Some(f) => f.clone(),
                None => LOG_FILE_NAME.to_string(),
            },
        }
    }

    /// Whether messages are printed to the terminal, because either the command
    /// line or the configuration asks for it.
    pub fn logs_to_terminal(&self, asked_for: bool) -> (r: bool)
        ensures
            r == (asked_for || self.duplicate_to_stderr),
    {
        asked_for || self.duplicate_to_stderr
    }

    /// The size in bytes from which on the log file is rotated.
    pub fn rotation_size(&self) -> (r: u64)
        requires
            self.rotation_size_mb * 1_048_576 <= u64::MAX,
        ensures
            r == self.rotation_size_mb * 1_048_576,
    {
        self.rotation_size_mb as u64 * 1_048_576
    }
}

// ---- all of it ----

#[derive(Debug)]
pub struct DocqConfig {
    pub models: ModelsConfig,
    pub indexing: IndexingConfig,
    pub retrieval: RetrievalConfig,
    pub llm: LlmGenerationConfig,
    pub logging: LoggingConfig,
}

/// Whether the configuration is the default one.
pub open spec fn is_default(c: DocqConfig) -> bool {
    &&& are_default_models(c.models)
    &&& c.indexing.chunk_size == registry::BGE_SMALL_ZH_V1_5_MAX_TOKENS
    &&& c.indexing.chunk_overlap == registry::BGE_SMALL_ZH_V1_5_MAX_TOKENS / 10
    &&& c.retrieval == (RetrievalConfig {
        bm25_top_k: 100,
        vector_top_k: 100,
        rrf_k: 60,
        rerank_top_n: 20,
    })
    &&& are_default_settings(c.llm)
    &&& is_default_logging(c.logging)
}

impl Clone for DocqConfig {
    fn clone(&self) -> (r: Self)
        ensures
            r == *self,
    {
        DocqConfig {
            models: self.models.clone(),
            indexing: self.indexing,
            retrieval: self.retrieval,
            llm: self.llm.clone(),
            logging: self.logging.clone(),
        }
    }
}

impl Default for DocqConfig {
    fn default() -> (r: Self)
        ensures
            is_default(r),
    {
        DocqConfig {
            models: ModelsConfig::default(),
            indexing: IndexingConfig::default(),
            retrieval: RetrievalConfig::default(),
            llm: LlmGenerationConfig::default(),
            logging: LoggingConfig::default(),
        }
    }
}

/// What was found where a configuration file is looked for.
#[derive(Debug)]
pub enum ConfigFile {
    Missing,
    /// The file could not be read.
    Unreadable { message: String },
    /// The file is no configuration.
    Invalid { message: String },
    Parsed(DocqConfig),
}

impl DocqConfig {
    /// The path of the configuration file in a directory, part by part.
    pub fn path(directory: &str) -> (r: Vec<String>)
        ensures
            text::views(r@) == seq![directory@, CONFIG_FILE_NAME@],
    {
        let mut parts: Vec<String> = Vec::new();
        parts.push(directory.to_string());
        parts.push(CONFIG_FILE_NAME.to_string());
        assert(text::views(parts@) =~= seq![directory@, CONFIG_FILE_NAME@]);
        parts
    }

    /// The configuration, given what was found at `path`. Without a file it is
    /// the default one.
    pub fn load(path: &str, file: ConfigFile) -> (r: std::result::Result<Self, String>)
        ensures
            match file {
                ConfigFile::Missing => r matches Ok(c) && is_default(c),
                ConfigFile::Parsed(c) => r == Ok::<DocqConfig, String>(c),
                ConfigFile::Unreadable { message } => r matches Err(e) && e@ == "read config "@
                    + path@ + ": "@ + message@,
                ConfigFile::Invalid { message } => r matches Err(e) && e@ == "parse config "@ + path@
                    + ": "@ + message@,
            },
    {
        match file {
            ConfigFile::Missing => Ok(DocqConfig::default()),
            ConfigFile::Parsed(c) => Ok(c),
            ConfigFile::Unreadable { message } => {
                let mut e = text::concat3("read config ", path, ": ");
                e.append(message.as_str());
                Err(e)
            },
            ConfigFile::Invalid { message } => {
                let mut e = text::concat3("parse config ", path, ": ");
                e.append(message.as_str());
                Err(e)
            },
        }
    }
}

/// Without a configuration documents are cut into chunks of 1024 tokens that share
/// a tenth, each stage of a search takes what its defaults say, answers have up to
/// 512 tokens in a window of 8192, and the log is kept in five files of ten
/// megabytes, at the level `info`.
pub proof fn law_default_settings(c: DocqConfig)
    requires
        is_default(c),
    ensures
        c.indexing.chunk_size == 1024,
        c.indexing.chunk_overlap == 102,
        c.retrieval.bm25_top_k == 100,
        c.retrieval.vector_top_k == 100,
        c.retrieval.rrf_k == 60,
        c.retrieval.rerank_top_n == 20,
        c.llm.temperature@ == "0.7"@,
        c.llm.top_p@ == "0.9"@,
        c.llm.max_tokens == 512,
        c.llm.n_ctx == 8192,
        c.llm.seed == 0,
        c.llm.system_prompt@ == "You are a helpful assistant."@,
        c.logging.level@ == "info"@,
        c.logging.file is None,
        c.logging.rotation_size_mb == 10,
        c.logging.max_files == 5,
        !c.logging.duplicate_to_stderr,
        c.models.embedding.repo_id@ == "Xenova/bge-small-zh-v1.5"@,
        c.models.embedding.filename@ == "onnx/model.onnx"@,
        c.models.embedding.tokenizer_filename@ == "tokenizer.json"@,
        c.models.embedding.revision@ == "main"@,
        c.models.reranker.repo_id@ == "jinaai/jina-reranker-v1-turbo-en"@,
        c.models.reranker.filename@ == "onnx/model.onnx"@,
        c.models.reranker.revision@ == "main"@,
        c.models.llm.repo_id@ == "Qwen/Qwen2.5-3B-Instruct-GGUF"@,
        c.models.llm.filename@ == "qwen2.5-3b-instruct-q4_k_m.gguf"@,
        c.models.llm.revision@ == "main"@,
{
}

} // verus!
