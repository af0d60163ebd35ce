//! The supported models.

use vstd::prelude::*;

use crate::error::{DocqError, ModelError, Result};
use crate::models::{ModelRole, ModelSpec};
use crate::text;

verus! {

// ---- Default embedding model: Xenova/bge-small-zh-v1.5 ----

pub const BGE_SMALL_ZH_V1_5_REPO: &'static str = "Xenova/bge-small-zh-v1.5";

pub const BGE_SMALL_ZH_V1_5_FILE: &'static str = "onnx/model.onnx";

/// Tokenizer file in the same repository as the embedding model.
pub const BGE_SMALL_ZH_V1_5_TOKENIZER_FILE: &'static str = "tokenizer.json";

/// Maximum input length of the embedding model. What exceeds it is silently cut
/// off, so chunks are made no larger than this.
pub const BGE_SMALL_ZH_V1_5_MAX_TOKENS: usize = 1024;

/// Output dimension of the default embedding vectors.
pub const BGE_SMALL_ZH_V1_5_DIMENSION: usize = 512;

// ---- Reranker model: BAAI/bge-reranker-base ----

pub const BGE_RERANKER_BASE_REPO: &'static str = "BAAI/bge-reranker-base";

pub const BGE_RERANKER_BASE_FILE: &'static str = "onnx/model.onnx";

// ---- Default language model: Qwen/Qwen2.5-3B-Instruct-GGUF ----

pub const QWEN2_5_3B_INSTRUCT_GGUF_REPO: &'static str = "Qwen/Qwen2.5-3B-Instruct-GGUF";

pub const QWEN2_5_3B_INSTRUCT_Q4_K_M_FILE: &'static str = "qwen2.5-3b-instruct-q4_k_m.gguf";

// ---- Other supported embedding models ----

pub const EMBEDDING_REPO_BGE_LARGE_ZH: &'static str = "Xenova/bge-large-zh-v1.5";

pub const EMBEDDING_REPO_BGE_M3: &'static str = "BAAI/bge-m3";

// ---- Other supported reranker models ----

pub const RERANKER_REPO_BGE_V2_M3: &'static str = "BAAI/bge-reranker-v2-m3";

/// The same model, mirrored in another repository.
pub const RERANKER_REPO_BGE_V2_M3_ALT: &'static str = "rozgo/bge-reranker-v2-m3";

pub const RERANKER_REPO_JINA_V1_TURBO_EN: &'static str = "jinaai/jina-reranker-v1-turbo-en";

pub const RERANKER_JINA_V1_TURBO_EN_FILE: &'static str = "onnx/model.onnx";

pub const RERANKER_REPO_JINA_V2_MULTILINGUAL: &'static str =
    "jinaai/jina-reranker-v2-base-multilingual";

/// The branch that models are taken from.
pub const MAIN_REVISION: &'static str = "main";

/// Whether `spec` is the newest version of a file, for the given role.
pub open spec fn is_model(
    spec: ModelSpec,
    role: ModelRole,
    repo_id: Seq<char>,
    filename: Seq<char>,
) -> bool {
    &&& spec.role == role
    &&& spec.repo_id@ == repo_id
    &&& spec.filename@ == filename
    &&& spec.revision@ == MAIN_REVISION@
    &&& spec.checksum is None
}

/// The default models.
pub struct ModelRegistry;

impl ModelRegistry {
    pub fn default_embedding() -> (r: ModelSpec)
        ensures
            is_model(r, ModelRole::Embedding, BGE_SMALL_ZH_V1_5_REPO@, BGE_SMALL_ZH_V1_5_FILE@),
    {
        ModelSpec {
            role: ModelRole::Embedding,
            repo_id: BGE_SMALL_ZH_V1_5_REPO.to_string(),
            filename: BGE_SMALL_ZH_V1_5_FILE.to_string(),
            revision: MAIN_REVISION.to_string(),
            checksum: None,
        }
    }

    pub fn default_reranker() -> (r: ModelSpec)
        ensures
            is_model(
                r,
                ModelRole::Reranker,
                RERANKER_REPO_JINA_V1_TURBO_EN@,
                RERANKER_JINA_V1_TURBO_EN_FILE@,
            ),
    {
        ModelSpec {
            role: ModelRole::Reranker,
            repo_id: RERANKER_REPO_JINA_V1_TURBO_EN.to_string(),
            filename: RERANKER_JINA_V1_TURBO_EN_FILE.to_string(),
            revision: MAIN_REVISION.to_string(),
            checksum: None,
        }
    }

    pub fn default_llm() -> (r: ModelSpec)
        ensures
            is_model(
                r,
                ModelRole::Chat,
                QWEN2_5_3B_INSTRUCT_GGUF_REPO@,
                QWEN2_5_3B_INSTRUCT_Q4_K_M_FILE@,
            ),
    {
        ModelSpec {
            role: ModelRole::Chat,
            repo_id: QWEN2_5_3B_INSTRUCT_GGUF_REPO.to_string(),
            filename: QWEN2_5_3B_INSTRUCT_Q4_K_M_FILE.to_string(),
            revision: MAIN_REVISION.to_string(),
            checksum: None,
        }
    }
}

/// The embedding models that can be run.
#[derive(Debug, Clone, Copy, PartialEq, Eq, Structural)]
pub enum EmbeddingModel {
    BgeSmallZhV15,
    BgeLargeZhV15,
    BgeM3,
}

/// The embedding model in a repository.
pub open spec fn embedding_model(repo_id: Seq<char>) -> Option<EmbeddingModel> {
    if repo_id == BGE_SMALL_ZH_V1_5_REPO@ {
        Some(EmbeddingModel::BgeSmallZhV15)
    } else if repo_id == EMBEDDING_REPO_BGE_LARGE_ZH@ {
        Some(EmbeddingModel::BgeLargeZhV15)
    } else if repo_id == EMBEDDING_REPO_BGE_M3@ {
        Some(EmbeddingModel::BgeM3)
    } else {
        None
    }
}

/// The embedding model in a repository.
pub fn embedding_model_for(repo_id: &str) -> (r: Result<EmbeddingModel>)
    ensures
        match r {
            Ok(model) => embedding_model(repo_id@) == Some(model),
            Err(e) => embedding_model(repo_id@) is None && (e matches DocqError::Model(
                ModelError::UnsupportedModel(message),
            ) && message@ == "unsupported embedding model: "@ + repo_id@),
        },
{
    if text::same(repo_id, BGE_SMALL_ZH_V1_5_REPO) {
        Ok(EmbeddingModel::BgeSmallZhV15)
    } else if text::same(repo_id, EMBEDDING_REPO_BGE_LARGE_ZH) {
        Ok(EmbeddingModel::BgeLargeZhV15)
    } else if text::same(repo_id, EMBEDDING_REPO_BGE_M3) {
        Ok(EmbeddingModel::BgeM3)
    } else {
        let message = text::concat("unsupported embedding model: ", repo_id);
        Err(DocqError::Model(ModelError::UnsupportedModel(message)))
    }
}

/// The reranker models that can be run.
#[derive(Debug, Clone, Copy, PartialEq, Eq, Structural)]
pub enum RerankerModel {
    BgeRerankerBase,
    BgeRerankerV2M3,
    JinaRerankerV1TurboEn,
    JinaRerankerV2BaseMultilingual,
}

/// The reranker model in a repository.
pub open spec fn reranker_model(repo_id: Seq<char>) -> Option<RerankerModel> {
    if repo_id == BGE_RERANKER_BASE_REPO@ {
        Some(RerankerModel::BgeRerankerBase)
    } else if repo_id == RERANKER_REPO_BGE_V2_M3@ || repo_id == RERANKER_REPO_BGE_V2_M3_ALT@ {
        Some(RerankerModel::BgeRerankerV2M3)
    } else if repo_id == RERANKER_REPO_JINA_V1_TURBO_EN@ {
        Some(RerankerModel::JinaRerankerV1TurboEn)
    } else if repo_id == RERANKER_REPO_JINA_V2_MULTILINGUAL@ {
        Some(RerankerModel::JinaRerankerV2BaseMultilingual)
    } else {
        None
    }
}

/// The reranker model in a repository.
pub fn reranker_model_for(repo_id: &str) -> (r: Result<RerankerModel>)
    ensures
        match r {
            Ok(model) => reranker_model(repo_id@) == Some(model),
            Err(e) => reranker_model(repo_id@) is None && (e matches DocqError::Model(
                ModelError::UnsupportedModel(message),
            ) && message@ == "unsupported reranker model: "@ + repo_id@),
        },
{
    if text::same(repo_id, BGE_RERANKER_BASE_REPO) {
        Ok(RerankerModel::BgeRerankerBase)
    } else if text::same(repo_id, RERANKER_REPO_BGE_V2_M3) || text::same(
        repo_id,
        RERANKER_REPO_BGE_V2_M3_ALT,
    ) {
        Ok(RerankerModel::BgeRerankerV2M3)
    } else if text::same(repo_id, RERANKER_REPO_JINA_V1_TURBO_EN) {
        Ok(RerankerModel::JinaRerankerV1TurboEn)
    } else if text::same(repo_id, RERANKER_REPO_JINA_V2_MULTILINGUAL) {
        Ok(RerankerModel::JinaRerankerV2BaseMultilingual)
    } else {
        let message = text::concat("unsupported reranker model: ", repo_id);
        Err(DocqError::Model(ModelError::UnsupportedModel(message)))
    }
}

/// The default models are supported.
pub proof fn law_defaults_are_supported(embedding: ModelSpec, reranker: ModelSpec)
    requires
        is_model(embedding, ModelRole::Embedding, BGE_SMALL_ZH_V1_5_REPO@, BGE_SMALL_ZH_V1_5_FILE@),
        is_model(
            reranker,
            ModelRole::Reranker,
            RERANKER_REPO_JINA_V1_TURBO_EN@,
            RERANKER_JINA_V1_TURBO_EN_FILE@,
        ),
    ensures
        embedding_model(embedding.repo_id@) is Some,
        reranker_model(reranker.repo_id@) is Some,
{
}

/// The embedding models that can be run are three, each known by its repository.
pub proof fn law_embedding_models(repo_id: Seq<char>)
    ensures
        embedding_model(repo_id) == Some(EmbeddingModel::BgeSmallZhV15) <==> repo_id
            == "Xenova/bge-small-zh-v1.5"@,
        embedding_model(repo_id) == Some(EmbeddingModel::BgeLargeZhV15) <==> repo_id
            == "Xenova/bge-large-zh-v1.5"@,
        embedding_model(repo_id) == Some(EmbeddingModel::BgeM3) <==> repo_id == "BAAI/bge-m3"@,
{
    reveal_strlit("Xenova/bge-small-zh-v1.5");
    reveal_strlit("Xenova/bge-large-zh-v1.5");
    reveal_strlit("BAAI/bge-m3");
    assert("Xenova/bge-small-zh-v1.5"@[11] == 's');
    assert("Xenova/bge-large-zh-v1.5"@[11] == 'l');
    assert("BAAI/bge-m3"@.len() == 11);
    assert("Xenova/bge-small-zh-v1.5"@.len() == 24);
    assert("Xenova/bge-large-zh-v1.5"@.len() == 24);
}

/// The reranker models that can be run are four, each known by its repository; one
/// of them has two.
pub proof fn law_reranker_models(repo_id: Seq<char>)
    ensures
        reranker_model(repo_id) == Some(RerankerModel::BgeRerankerBase) <==> repo_id
            == "BAAI/bge-reranker-base"@,
        reranker_model(repo_id) == Some(RerankerModel::BgeRerankerV2M3) <==> repo_id
            == "BAAI/bge-reranker-v2-m3"@ || repo_id == "rozgo/bge-reranker-v2-m3"@,
        reranker_model(repo_id) == Some(RerankerModel::JinaRerankerV1TurboEn) <==> repo_id
            == "jinaai/jina-reranker-v1-turbo-en"@,
        reranker_model(repo_id) == Some(RerankerModel::JinaRerankerV2BaseMultilingual) <==> repo_id
            == "jinaai/jina-reranker-v2-base-multilingual"@,
{
    reveal_strlit("BAAI/bge-reranker-base");
    reveal_strlit("BAAI/bge-reranker-v2-m3");
    reveal_strlit("rozgo/bge-reranker-v2-m3");
    reveal_strlit("jinaai/jina-reranker-v1-turbo-en");
    reveal_strlit("jinaai/jina-reranker-v2-base-multilingual");
    assert("BAAI/bge-reranker-base"@.len() == 22);
    assert("BAAI/bge-reranker-v2-m3"@.len() == 23);
    assert("rozgo/bge-reranker-v2-m3"@.len() == 24);
    assert("jinaai/jina-reranker-v1-turbo-en"@.len() == 32);
    assert("jinaai/jina-reranker-v2-base-multilingual"@.len() == 41);
}

} // verus!
