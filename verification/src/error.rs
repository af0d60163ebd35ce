//! What can go wrong.

use vstd::prelude::*;

use crate::text;

verus! {

/// Any failure of the library.
#[derive(Debug)]
pub enum DocqError {
    Parse(ParseError),
    Store(StoreError),
    Embed(EmbedError),
    Retrieve(RetrieveError),
    Synth(SynthError),
    Llm(LlmError),
    Model(ModelError),
}

/// A file could not be read as a document.
#[derive(Debug)]
pub enum ParseError {
    Io { path: String, source: String },
    ExtractFailed { path: String, message: String },
    ZipFailed { path: String, message: String },
    ZipEntryMissing { path: String, entry: String, message: String },
    XmlParseFailed { message: String },
}

/// The index store failed.
#[derive(Debug)]
pub enum StoreError {
    Sqlite(String),
    MutexPoisoned,
    InvalidDimension,
    SchemaMismatch { expected: String },
    TransactionAlreadyCommitted,
    ArgumentMismatch { what: String, a: usize, b: usize },
    Io(String),
    NotFound(String),
    InvalidTimestamp(String),
}

/// A text could not be embedded.
#[derive(Debug)]
pub enum EmbedError {
    EmptyResult,
    MutexPoisoned,
    InferenceFailed(String),
}

/// A search failed.
#[derive(Debug)]
pub enum RetrieveError {
    TaskJoin(String),
    MutexPoisoned,
    RerankFailed(String),
}

/// An answer could not be put together.
#[derive(Debug)]
pub enum SynthError {
    Other(String),
}

/// The language model failed.
#[derive(Debug)]
pub enum LlmError {
    BackendInit(String),
    ModelLoad(String),
    InferenceFailed(String),
    NotLoaded,
    InvalidConfig(String),
    TokenizerLoad(String),
}

/// A model could not be had.
#[derive(Debug)]
pub enum ModelError {
    ModelInitFailed(String),
    ModelInfoFailed(String),
    UnsupportedModel(String),
    DownloadFailed(String),
    HubApiFailed(String),
    TaskJoin(String),
}

pub type Result<T> = std::result::Result<T, DocqError>;

impl From<ParseError> for DocqError {
    fn from(e: ParseError) -> (r: Self) {
        DocqError::Parse(e)
    }
}

impl vstd::std_specs::convert::FromSpecImpl<ParseError> for DocqError {
    open spec fn obeys_from_spec() -> bool {
        true
    }

    open spec fn from_spec(e: ParseError) -> Self {
        DocqError::Parse(e)
    }
}

impl From<StoreError> for DocqError {
    fn from(e: StoreError) -> (r: Self) {
        DocqError::Store(e)
    }
}

impl vstd::std_specs::convert::FromSpecImpl<StoreError> for DocqError {
    open spec fn obeys_from_spec() -> bool {
        true
    }

    open spec fn from_spec(e: StoreError) -> Self {
        DocqError::Store(e)
    }
}

impl From<EmbedError> for DocqError {
    fn from(e: EmbedError) -> (r: Self) {
        DocqError::Embed(e)
    }
}

impl vstd::std_specs::convert::FromSpecImpl<EmbedError> for DocqError {
    open spec fn obeys_from_spec() -> bool {
        true
    }

    open spec fn from_spec(e: EmbedError) -> Self {
        DocqError::Embed(e)
    }
}

impl From<RetrieveError> for DocqError {
    fn from(e: RetrieveError) -> (r: Self) {
        DocqError::Retrieve(e)
    }
}

impl vstd::std_specs::convert::FromSpecImpl<RetrieveError> for DocqError {
    open spec fn obeys_from_spec() -> bool {
        true
    }

    open spec fn from_spec(e: RetrieveError) -> Self {
        DocqError::Retrieve(e)
    }
}

impl From<SynthError> for DocqError {
    fn from(e: SynthError) -> (r: Self) {
        DocqError::Synth(e)
    }
}

impl vstd::std_specs::convert::FromSpecImpl<SynthError> for DocqError {
    open spec fn obeys_from_spec() -> bool {
        true
    }

    open spec fn from_spec(e: SynthError) -> Self {
        DocqError::Synth(e)
    }
}

impl From<LlmError> for DocqError {
    fn from(e: LlmError) -> (r: Self) {
        DocqError::Llm(e)
    }
}

impl vstd::std_specs::convert::FromSpecImpl<LlmError> for DocqError {
    open spec fn obeys_from_spec() -> bool {
        true
    }

    open spec fn from_spec(e: LlmError) -> Self {
        DocqError::Llm(e)
    }
}

impl From<ModelError> for DocqError {
    fn from(e: ModelError) -> (r: Self) {
        DocqError::Model(e)
    }
}

impl vstd::std_specs::convert::FromSpecImpl<ModelError> for DocqError {
    open spec fn obeys_from_spec() -> bool {
        true
    }

    open spec fn from_spec(e: ModelError) -> Self {
        DocqError::Model(e)
    }
}

impl DocqError {
    pub open spec fn described(self) -> Seq<char> {
        match self {
            DocqError::Parse(e) => "parse error: "@ + e.described(),
            DocqError::Store(e) => "store error: "@ + e.described(),
            DocqError::Embed(e) => "embed error: "@ + e.described(),
            DocqError::Retrieve(e) => "retrieve error: "@ + e.described(),
            DocqError::Synth(e) => "synth error: "@ + e.described(),
            DocqError::Llm(e) => "llm error: "@ + e.described(),
            DocqError::Model(e) => "model error: "@ + e.described(),
        }
    }

    /// The failure in words.
    pub fn message(&self) -> (r: String)
        ensures
            r@ == self.described(),
    {
        match self {
            DocqError::Parse(e) => text::concat("parse error: ", e.message().as_str()),
            DocqError::Store(e) => text::concat("store error: ", e.message().as_str()),
            DocqError::Embed(e) => text::concat("embed error: ", e.message().as_str()),
            DocqError::Retrieve(e) => text::concat("retrieve error: ", e.message().as_str()),
            DocqError::Synth(e) => text::concat("synth error: ", e.message().as_str()),
            DocqError::Llm(e) => text::concat("llm error: ", e.message().as_str()),
            DocqError::Model(e) => text::concat("model error: ", e.message().as_str()),
        }
    }
}

impl ParseError {
    pub open spec fn described(self) -> Seq<char> {
        match self {
            ParseError::Io { path, source } => "read "@ + path@ + ": "@ + source@,
            ParseError::ExtractFailed { path, message } => "extract "@ + path@ + ": "@ + message@,
            ParseError::ZipFailed { path, message } => "open docx "@ + path@ + ": "@ + message@,
            ParseError::ZipEntryMissing { path, entry, message } => "zip entry `"@ + entry@ + "` missing in "@ + path@ + ": "@ + message@,
            ParseError::XmlParseFailed { message } => "parse document.xml: "@ + message@,
        }
    }

    /// The failure in words.
    pub fn message(&self) -> (r: String)
        ensures
            r@ == self.described(),
    {
        match self {
            ParseError::Io { path, source } => {
                let mut out = "read ".to_string();
                out.append(path.as_str());
                out.append(": ");
                out.append(source.as_str());
                out
            },
            ParseError::ExtractFailed { path, message } => {
                let mut out = "extract ".to_string();
                out.append(path.as_str());
                out.append(": ");
                out.append(message.as_str());
                out
            },
            ParseError::ZipFailed { path, message } => {
                let mut out = "open docx ".to_string();
                out.append(path.as_str());
                out.append(": ");
                out.append(message.as_str());
                out
            },
            ParseError::ZipEntryMissing { path, entry, message } => {
                let mut out = "zip entry `".to_string();
                out.append(entry.as_str());
                out.append("` missing in ");
                out.append(path.as_str());
                out.append(": ");
                out.append(message.as_str());
                out
            },
            ParseError::XmlParseFailed { message } => text::concat("parse document.xml: ", message.as_str()),
        }
    }
}

impl StoreError {
    pub open spec fn described(self) -> Seq<char> {
        match self {
            StoreError::Sqlite(m) => "sqlite: "@ + m@,
            StoreError::MutexPoisoned => "mutex poisoned"@,
            StoreError::InvalidDimension => "vector dimension must be greater than 0"@,
            StoreError::SchemaMismatch { expected } => "vec_chunks dimension mismatch: existing table does not use "@ + expected@,
            StoreError::TransactionAlreadyCommitted => "transaction already committed"@,
            StoreError::ArgumentMismatch { what, a, b } => what@ + " length mismatch: "@ + text::decimal(a as nat) + " vs "@ + text::decimal(b as nat),
            StoreError::Io(m) => "io: "@ + m@,
            StoreError::NotFound(m) => "collection not found: "@ + m@,
            StoreError::InvalidTimestamp(m) => "invalid timestamp: "@ + m@,
        }
    }

    /// The failure in words.
    pub fn message(&self) -> (r: String)
        ensures
            r@ == self.described(),
    {
        match self {
            StoreError::Sqlite(m) => text::concat("sqlite: ", m.as_str()),
            StoreError::MutexPoisoned => "mutex poisoned".to_string(),
            StoreError::InvalidDimension => "vector dimension must be greater than 0".to_string(),
            StoreError::SchemaMismatch { expected } => text::concat("vec_chunks dimension mismatch: existing table does not use ", expected.as_str()),
            StoreError::TransactionAlreadyCommitted => "transaction already committed".to_string(),
            StoreError::ArgumentMismatch { what, a, b } => {
                let mut out = what.clone();
                out.append(" length mismatch: ");
                text::push_decimal(&mut out, *a as u128);
                out.append(" vs ");
                text::push_decimal(&mut out, *b as u128);
                out
            },
            StoreError::Io(m) => text::concat("io: ", m.as_str()),
            StoreError::NotFound(m) => text::concat("collection not found: ", m.as_str()),
            StoreError::InvalidTimestamp(m) => text::concat("invalid timestamp: ", m.as_str()),
        }
    }
}

impl EmbedError {
    pub open spec fn described(self) -> Seq<char> {
        match self {
            EmbedError::EmptyResult => "empty embedding result"@,
            EmbedError::MutexPoisoned => "mutex poisoned"@,
            EmbedError::InferenceFailed(m) => "inference failed: "@ + m@,
        }
    }

    /// The failure in words.
    pub fn message(&self) -> (r: String)
        ensures
            r@ == self.described(),
    {
        match self {
            EmbedError::EmptyResult => "empty embedding result".to_string(),
            EmbedError::MutexPoisoned => "mutex poisoned".to_string(),
            EmbedError::InferenceFailed(m) => text::concat("inference failed: ", m.as_str()),
        }
    }
}

impl RetrieveError {
    pub open spec fn described(self) -> Seq<char> {
        match self {
            RetrieveError::TaskJoin(m) => "task join: "@ + m@,
            RetrieveError::MutexPoisoned => "mutex poisoned"@,
            RetrieveError::RerankFailed(m) => "rerank failed: "@ + m@,
        }
    }

    /// The failure in words.
    pub fn message(&self) -> (r: String)
        ensures
            r@ == self.described(),
    {
        match self {
            RetrieveError::TaskJoin(m) => text::concat("task join: ", m.as_str()),
            RetrieveError::MutexPoisoned => "mutex poisoned".to_string(),
            RetrieveError::RerankFailed(m) => text::concat("rerank failed: ", m.as_str()),
        }
    }
}

impl SynthError {
    pub open spec fn described(self) -> Seq<char> {
        match self {
            SynthError::Other(m) => m@,
        }
    }

    /// The failure in words.
    pub fn message(&self) -> (r: String)
        ensures
            r@ == self.described(),
    {
        match self {
            SynthError::Other(m) => m.clone(),
        }
    }
}

impl LlmError {
    pub open spec fn described(self) -> Seq<char> {
        match self {
            LlmError::BackendInit(m) => "init backend: "@ + m@,
            LlmError::ModelLoad(m) => "load model: "@ + m@,
            LlmError::InferenceFailed(m) => "inference: "@ + m@,
            LlmError::NotLoaded => "LLM not loaded \u{2014} use open_for_ask"@,
            LlmError::InvalidConfig(m) => "invalid config: "@ + m@,
            LlmError::TokenizerLoad(m) => "load tokenizer: "@ + m@,
        }
    }

    /// The failure in words.
    pub fn message(&self) -> (r: String)
        ensures
            r@ == self.described(),
    {
        match self {
            LlmError::BackendInit(m) => text::concat("init backend: ", m.as_str()),
            LlmError::ModelLoad(m) => text::concat("load model: ", m.as_str()),
            LlmError::InferenceFailed(m) => text::concat("inference: ", m.as_str()),
            LlmError::NotLoaded => "LLM not loaded \u{2014} use open_for_ask".to_string(),
            LlmError::InvalidConfig(m) => text::concat("invalid config: ", m.as_str()),
            LlmError::TokenizerLoad(m) => text::concat("load tokenizer: ", m.as_str()),
        }
    }
}

impl ModelError {
    pub open spec fn described(self) -> Seq<char> {
        match self {
            ModelError::ModelInitFailed(m) => "model init failed: "@ + m@,
            ModelError::ModelInfoFailed(m) => "model info failed: "@ + m@,
            ModelError::UnsupportedModel(m) => "unsupported model: "@ + m@,
            ModelError::DownloadFailed(m) => "download failed: "@ + m@,
            ModelError::HubApiFailed(m) => "hub api: "@ + m@,
            ModelError::TaskJoin(m) => "task join: "@ + m@,
        }
    }

    /// The failure in words.
    pub fn message(&self) -> (r: String)
        ensures
            r@ == self.described(),
    {
        match self {
            ModelError::ModelInitFailed(m) => text::concat("model init failed: ", m.as_str()),
            ModelError::ModelInfoFailed(m) => text::concat("model info failed: ", m.as_str()),
            ModelError::UnsupportedModel(m) => text::concat("unsupported model: ", m.as_str()),
            ModelError::DownloadFailed(m) => text::concat("download failed: ", m.as_str()),
            ModelError::HubApiFailed(m) => text::concat("hub api: ", m.as_str()),
            ModelError::TaskJoin(m) => text::concat("task join: ", m.as_str()),
        }
    }
}

/// A failure is told behind the name of the part that it comes from.
pub proof fn law_failures_name_their_part(e: DocqError)
    ensures
        e matches DocqError::Parse(x) ==> e.described() == "parse error: "@ + x.described(),
        e matches DocqError::Store(x) ==> e.described() == "store error: "@ + x.described(),
        e matches DocqError::Embed(x) ==> e.described() == "embed error: "@ + x.described(),
        e matches DocqError::Retrieve(x) ==> e.described() == "retrieve error: "@ + x.described(),
        e matches DocqError::Synth(x) ==> e.described() == "synth error: "@ + x.described(),
        e matches DocqError::Llm(x) ==> e.described() == "llm error: "@ + x.described(),
        e matches DocqError::Model(x) ==> e.described() == "model error: "@ + x.described(),
{
}

} // verus!
