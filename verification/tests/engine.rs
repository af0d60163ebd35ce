use semquery::cli::{index_line, search_lines, status_lines, AskOutput, ScoreTexts};
use semquery::config::{
    default_tokenizer_filename, ConfigFile, DocqConfig, LlmGenerationConfig, LoggingConfig,
    ModelEntry, ModelsConfig, RetrievalConfig,
};
use semquery::engine::{
    answer_or_error, canonicalize_failed, check_file, collect_answer, collect_hits,
    create_workspace_failed, engine_config, find_collection, forward, retriever_config, sources_of,
    status, Forwarded,
};
use semquery::error::{DocqError, LlmError, ModelError, StoreError, SynthError};
use semquery::hub::ModelHub;
use semquery::indexer::IndexStats;
use semquery::loading::{Component, Download, DownloadPhase, Loading, LoadingAction, LoadingInput, Task};
use semquery::models::{
    Answer, AskEvent, Chunk, Citation, Collection, IndexEvent, LlmConfig, ModelRole, ModelSpec,
    ScoreExplain, SearchEvent, SearchHit, SearchStage, SearchStats,
};
use semquery::registry;
use semquery::registry::{
    embedding_model_for, reranker_model_for, EmbeddingModel, ModelRegistry, RerankerModel,
};
use semquery::rerank::{chunk_texts, score_chunks, RerankResult};
use semquery::score::Score;
use semquery::verbose::Verbose;

// ---- configuration ----

#[test]
fn test_load_missing_returns_default() {
    let config = DocqConfig::load("config.toml", ConfigFile::Missing).unwrap();
    assert_eq!(config.indexing.chunk_size, registry::BGE_SMALL_ZH_V1_5_MAX_TOKENS);
}

#[test]
fn default_configuration() {
    let config = DocqConfig::default();
    assert_eq!(config.indexing.chunk_size, 1024);
    assert_eq!(config.indexing.chunk_overlap, 102);
    assert_eq!(
        config.retrieval,
        RetrievalConfig { bm25_top_k: 100, vector_top_k: 100, rrf_k: 60, rerank_top_n: 20 }
    );
    assert_eq!(config.llm.temperature, "0.7");
    assert_eq!(config.llm.top_p, "0.9");
    assert_eq!(config.llm.n_ctx, 8192);
    assert_eq!(config.llm.max_tokens, 512);
    assert_eq!(config.llm.seed, 0);
    assert_eq!(config.logging.level, "info");
    assert_eq!(config.logging.rotation_size_mb, 10);
    assert_eq!(config.logging.max_files, 5);
    assert_eq!(config.models.embedding.repo_id, "Xenova/bge-small-zh-v1.5");
    assert_eq!(config.models.reranker.repo_id, "jinaai/jina-reranker-v1-turbo-en");
    assert_eq!(config.models.llm.filename, "qwen2.5-3b-instruct-q4_k_m.gguf");
    assert_eq!(config.models.llm.tokenizer_filename, default_tokenizer_filename());
    assert_eq!(ModelEntry::default().tokenizer_filename, "tokenizer.json");
}

#[test]
fn configuration_files_that_fail_say_why() {
    let unreadable = ConfigFile::Unreadable { message: "denied".into() };
    assert_eq!(DocqConfig::load("/c/config.toml", unreadable).unwrap_err(), "read config /c/config.toml: denied");
    let invalid = ConfigFile::Invalid { message: "no key".into() };
    assert_eq!(DocqConfig::load("/c/config.toml", invalid).unwrap_err(), "parse config /c/config.toml: no key");
    let mut other = DocqConfig::default();
    other.indexing.chunk_size = 7;
    let loaded = DocqConfig::load("x", ConfigFile::Parsed(other)).unwrap();
    assert_eq!(loaded.indexing.chunk_size, 7);
    assert_eq!(DocqConfig::path("/c"), vec!["/c", "config.toml"]);
}

#[test]
fn generation_settings_are_read() {
    let bits = |s: &str| -> Result<u32, String> {
        s.parse::<f32>().map(f32::to_bits).map_err(|e| e.to_string())
    };
    let c = LlmGenerationConfig::default();
    let (t, p) = (bits(&c.temperature), bits(&c.top_p));
    let read = c.to_llm_config(t, p).unwrap();
    let default = LlmConfig::default();
    assert_eq!(read.temperature, default.temperature);
    assert_eq!(read.top_p, default.top_p);
    assert_eq!(f32::from_bits(default.temperature), 0.7);
    assert_eq!(f32::from_bits(default.top_p), 0.9);
    assert_eq!(read.system_prompt, default.system_prompt);
    assert_eq!(read.n_ctx, default.n_ctx);
    assert_eq!(read.max_tokens, default.max_tokens);

    let c = LlmGenerationConfig::default();
    match c.to_llm_config(bits("warm"), bits("x")) {
        Err(LlmError::InvalidConfig(m)) => {
            assert_eq!(m, "invalid temperature: invalid float literal")
        }
        _ => panic!("no number"),
    }
    let c = LlmGenerationConfig::default();
    match c.to_llm_config(bits("0.5"), bits("")) {
        Err(LlmError::InvalidConfig(m)) => {
            assert_eq!(m, "invalid top_p: cannot parse float from empty string")
        }
        _ => panic!("no number"),
    }
}

#[test]
fn log_files_by_precedence() {
    let mut logging = LoggingConfig::default();
    assert_eq!(logging.log_file(None), "semq.log");
    logging.file = Some("from/config.log".into());
    assert_eq!(logging.log_file(None), "from/config.log");
    assert_eq!(logging.log_file(Some("asked.log")), "asked.log");
    assert_eq!(logging.rotation_size(), 10_485_760);
    assert!(!logging.logs_to_terminal(false));
    assert!(logging.logs_to_terminal(true));
    logging.duplicate_to_stderr = true;
    assert!(logging.logs_to_terminal(false));
}

// ---- models ----

#[test]
fn default_models_are_supported() {
    let embedding = ModelRegistry::default_embedding();
    assert_eq!(embedding.role, ModelRole::Embedding);
    assert_eq!(embedding_model_for(&embedding.repo_id).unwrap(), EmbeddingModel::BgeSmallZhV15);
    let reranker = ModelRegistry::default_reranker();
    assert_eq!(
        reranker_model_for(&reranker.repo_id).unwrap(),
        RerankerModel::JinaRerankerV1TurboEn
    );
    let llm = ModelRegistry::default_llm();
    assert_eq!(llm.role, ModelRole::Chat);
    assert_eq!(llm.revision, "main");
    let models = ModelsConfig::default();
    assert_eq!(models.llm.to_spec(ModelRole::Chat).repo_id, llm.repo_id);
}

#[test]
fn repositories_name_models() {
    for (repo, model) in [
        (registry::EMBEDDING_REPO_BGE_LARGE_ZH, EmbeddingModel::BgeLargeZhV15),
        (registry::EMBEDDING_REPO_BGE_M3, EmbeddingModel::BgeM3),
    ] {
        assert_eq!(embedding_model_for(repo).unwrap(), model);
    }
    for (repo, model) in [
        (registry::BGE_RERANKER_BASE_REPO, RerankerModel::BgeRerankerBase),
        (registry::RERANKER_REPO_BGE_V2_M3, RerankerModel::BgeRerankerV2M3),
        (registry::RERANKER_REPO_BGE_V2_M3_ALT, RerankerModel::BgeRerankerV2M3),
        (
            registry::RERANKER_REPO_JINA_V2_MULTILINGUAL,
            RerankerModel::JinaRerankerV2BaseMultilingual,
        ),
    ] {
        assert_eq!(reranker_model_for(repo).unwrap(), model);
    }
    match embedding_model_for("nobody/nothing") {
        Err(DocqError::Model(ModelError::UnsupportedModel(m))) => {
            assert_eq!(m, "unsupported embedding model: nobody/nothing")
        }
        _ => panic!("no such model"),
    }
    match reranker_model_for("") {
        Err(DocqError::Model(ModelError::UnsupportedModel(m))) => {
            assert_eq!(m, "unsupported reranker model: ")
        }
        _ => panic!("no such model"),
    }
}

#[test]
fn roles_have_names() {
    for role in
        [ModelRole::Embedding, ModelRole::Reranker, ModelRole::Chat, ModelRole::Tokenizer]
    {
        assert_eq!(role.as_str().parse::<ModelRole>(), Ok(role));
    }
    assert_eq!("Chat".parse::<ModelRole>(), Err("unknown model role: Chat".to_string()));
}

#[test]
fn cached_files_are_looked_up_by_commit() {
    let hub = ModelHub::new("/cache".into());
    assert_eq!(hub.cache_dir(), "/cache");
    let spec = ModelRegistry::default_embedding();
    assert_eq!(
        hub.reference_path(&spec),
        vec!["models--Xenova--bge-small-zh-v1.5", "refs", "main"]
    );
    assert_eq!(
        hub.snapshot_path(&spec, Some("abc123\n")),
        vec!["models--Xenova--bge-small-zh-v1.5", "snapshots", "abc123", "onnx/model.onnx"]
    );
    assert_eq!(
        hub.snapshot_path(&spec, None),
        vec!["models--Xenova--bge-small-zh-v1.5", "snapshots", "main", "onnx/model.onnx"]
    );
}

fn chunk(id: &str, text: &str) -> Chunk {
    Chunk { id: id.into(), doc_id: "d".into(), text: text.into(), byte_range: 0..text.len() }
}

#[test]
fn rerank_results_point_at_chunks() {
    let chunks = vec![chunk("a", "分布式共识算法"), chunk("b", "今天天气不错")];
    assert_eq!(chunk_texts(&chunks), vec!["分布式共识算法", "今天天气不错"]);
    let results = [
        RerankResult { index: 1, score: Score { bits: 0.9_f32.to_bits() } },
        RerankResult { index: 7, score: Score { bits: 0.8_f32.to_bits() } },
        RerankResult { index: 0, score: Score { bits: 0.1_f32.to_bits() } },
    ];
    let scored = score_chunks(&chunks, &results);
    let ids: Vec<&str> = scored.iter().map(|s| s.chunk.id.as_str()).collect();
    assert_eq!(ids, vec!["b", "a"]);
    assert_eq!(scored[0].score, results[0].score);
}

// ---- loading ----

struct World {
    loaded: Vec<Component>,
    cached: bool,
    fetchable: bool,
    bad_settings: bool,
    built: Vec<Component>,
    fetched: Vec<ModelRole>,
    initialized: Vec<usize>,
    downloads: Vec<Download>,
}

fn world() -> World {
    World {
        loaded: Vec::new(),
        cached: false,
        fetchable: true,
        bad_settings: false,
        built: Vec::new(),
        fetched: Vec::new(),
        initialized: Vec::new(),
        downloads: Vec::new(),
    }
}

fn load(world: &mut World, task: Task) -> Result<(), DocqError> {
    let config = DocqConfig::default();
    let mut state = Loading::new(task);
    let mut input = LoadingInput::Start;
    let mut clock = 0;
    loop {
        clock += 2_000_000;
        let (next, action) = state.next(input, &config, clock);
        state = next;
        input = match action {
            LoadingAction::Look { component } => {
                LoadingInput::Loaded(world.loaded.contains(&component))
            }
            LoadingAction::Configure => LoadingInput::Configured(if world.bad_settings {
                Err(DocqError::Llm(LlmError::InvalidConfig("no".into())))
            } else {
                Ok(LlmConfig::default())
            }),
            LoadingAction::Probe { .. } => LoadingInput::Cached(world.cached),
            LoadingAction::Fetch { spec, download } => {
                world.downloads.extend(download);
                world.fetched.push(spec.role);
                LoadingInput::Fetched(if world.fetchable {
                    Ok(())
                } else {
                    Err(DocqError::Model(ModelError::DownloadFailed("404".into())))
                })
            }
            LoadingAction::Build { component, settings, download } => {
                assert_eq!(settings.is_some(), component == Component::Llm);
                world.downloads.extend(download);
                world.built.push(component);
                world.loaded.push(component);
                LoadingInput::Built(Ok(512))
            }
            LoadingAction::Initialize { dimension } => {
                world.initialized.push(dimension);
                LoadingInput::Initialized(Ok(()))
            }
            LoadingAction::Return(r) => return r,
            LoadingAction::Stop => panic!("loading ends with a result"),
        };
    }
}

#[test]
fn test_engine_open_loads_no_models() {
    let mut w = world();
    w.fetchable = false;
    assert!(load(&mut w, Task::Index).is_err());
    assert_eq!(w.downloads.len(), 1);
    assert_eq!(w.downloads[0].spec.role, ModelRole::Embedding);
    assert_eq!(w.downloads[0].phase, DownloadPhase::Start);
    assert!(w.built.is_empty());
    assert!(load(&mut w, Task::Search).is_err());
    assert!(load(&mut w, Task::Ask).is_err());
}

#[test]
fn test_open_engine_lazy_index_with_cached_models() {
    let mut w = world();
    w.cached = true;
    load(&mut w, Task::Index).unwrap();
    assert_eq!(w.downloads.len(), 0, "cached models must not emit download events");
    assert_eq!(w.built, vec![Component::Embedder, Component::Chunker]);
    assert_eq!(w.initialized, vec![512]);
}

#[test]
fn test_engine_ask_without_llm_errors() {
    let mut w = world();
    w.loaded = vec![Component::Embedder, Component::Chunker];
    w.fetchable = false;
    let result = load(&mut w, Task::Ask);
    assert!(result.is_err());
    assert!(w.built.is_empty());
}

#[test]
fn tasks_load_what_they_need_and_no_more() {
    let mut w = world();
    load(&mut w, Task::Search).unwrap();
    assert_eq!(w.fetched, vec![ModelRole::Embedding, ModelRole::Reranker]);
    assert_eq!(w.downloads.len(), 4);
    assert_eq!(w.downloads[1].phase, DownloadPhase::Complete { elapsed_ms: 2 });

    load(&mut w, Task::Ask).unwrap();
    assert_eq!(w.built, vec![Component::Embedder, Component::Reranker, Component::Llm]);
    assert_eq!(w.fetched.last(), Some(&ModelRole::Chat));

    load(&mut w, Task::Ask).unwrap();
    assert_eq!(w.built.len(), 3);
}

#[test]
fn wrong_settings_are_found_before_the_download() {
    let mut w = world();
    w.bad_settings = true;
    assert!(matches!(load(&mut w, Task::Ask), Err(DocqError::Llm(LlmError::InvalidConfig(_)))));
    assert!(!w.fetched.contains(&ModelRole::Chat));
}

#[test]
fn the_tokenizer_comes_with_the_embedding_model() {
    let config = DocqConfig::default();
    let file = Component::Chunker.model_file(&config);
    assert_eq!(file.role, ModelRole::Tokenizer);
    assert_eq!(file.repo_id, config.models.embedding.repo_id);
    assert_eq!(file.filename, "tokenizer.json");
    assert_eq!(Component::Chunker.step_name(), "load tokenizer");
    assert_eq!(Component::Llm.step_name(), "load LLM");
}

#[test]
fn downloads_become_events() {
    let spec = ModelSpec {
        role: ModelRole::Chat,
        repo_id: "r".into(),
        filename: "f".into(),
        revision: "main".into(),
        checksum: None,
    };
    let start = Download { spec: spec.clone(), phase: DownloadPhase::Start };
    let end = Download { spec, phase: DownloadPhase::Complete { elapsed_ms: 9 } };
    assert_eq!(
        start.index_event(),
        IndexEvent::ModelDownloadStart {
            role: ModelRole::Chat,
            repo_id: "r".into(),
            filename: "f".into()
        }
    );
    assert_eq!(
        end.index_event(),
        IndexEvent::ModelDownloadComplete { role: ModelRole::Chat, elapsed_ms: 9 }
    );
    assert!(matches!(
        start.search_event(),
        SearchEvent::ModelDownloadStart { role: ModelRole::Chat, .. }
    ));
    assert!(matches!(
        end.ask_event(),
        AskEvent::ModelDownloadComplete { role: ModelRole::Chat, elapsed_ms: 9 }
    ));
}

// ---- collections ----

fn collection(name: &str, path: &str) -> Collection {
    Collection { name: name.into(), path: path.into() }
}

#[test]
fn test_engine_add_collection_and_status() {
    let collections = vec![collection("notes", "/n")];
    let status = status(&Vec::new(), collections, 0);
    assert_eq!(status.collections.len(), 1);
    assert_eq!(status.collections[0].name, "notes");
    assert_eq!(status.documents, 0);
}

#[test]
fn collections_are_found_by_name() {
    let all = || vec![collection("a", "/1"), collection("b", "/2"), collection("b", "/3")];
    assert_eq!(find_collection(all(), "b").unwrap().path, "/2");
    match find_collection(all(), "c") {
        Err(DocqError::Store(StoreError::NotFound(n))) => assert_eq!(n, "c"),
        _ => panic!("there is no such collection"),
    }
    let sources = sources_of(all());
    assert_eq!(sources.len(), 3);
    assert_eq!((sources[2].id.as_str(), sources[2].path.as_str()), ("b", "/3"));
}

#[test]
fn paths_that_are_no_files_are_refused() {
    assert!(check_file("/a", true).is_ok());
    let text = |e: DocqError| match e {
        DocqError::Store(StoreError::Io(m)) => m,
        _ => panic!("an I/O error"),
    };
    assert_eq!(text(check_file("/a", false).unwrap_err()), "/a is not a file");
    assert_eq!(text(canonicalize_failed("x", "gone")), "canonicalize x: gone");
    assert_eq!(text(create_workspace_failed("full")), "create workspace dir: full");
}

#[test]
fn settings_of_an_engine() {
    let c = engine_config("/w", "/m", DocqConfig::default(), Verbose(true));
    assert_eq!(c.workspace_path, "/w");
    assert_eq!(c.model_cache_dir, "/m");
    assert_eq!(c.verbose, Verbose(true));
    let r = retriever_config(&c.config.retrieval, true);
    assert_eq!((r.bm25_top_k, r.rrf_k, r.rerank_top_n, r.reranks), (100, 60, 20, true));
}

// ---- events ----

fn hit(text: &str) -> SearchHit {
    SearchHit {
        chunk: chunk("c", text),
        file_path: "/n/a.txt".into(),
        score: Score { bits: 0.5_f32.to_bits() },
        explain: ScoreExplain::default(),
    }
}

fn completed(hits: Vec<SearchHit>) -> SearchEvent {
    SearchEvent::Completed { hits, stats: SearchStats::default() }
}

#[test]
fn hits_of_the_last_completion_count() {
    let hits = collect_hits(Vec::new(), Ok(SearchEvent::StageStarted { stage: SearchStage::Fusion }));
    assert!(hits.unwrap().is_empty());
    let hits = collect_hits(Vec::new(), Ok(completed(vec![hit("x")]))).unwrap();
    assert_eq!(hits.len(), 1);
    let failure = DocqError::Synth(SynthError::Other("x".into()));
    assert!(collect_hits(hits, Err(failure)).is_err());
}

#[test]
fn search_events_are_passed_on() {
    let event = SearchEvent::StageFinished { stage: SearchStage::Rerank, elapsed_ms: 4 };
    assert!(matches!(
        forward(event),
        Forwarded::Event(AskEvent::StageFinished { stage: SearchStage::Rerank, elapsed_ms: 4 })
    ));
    assert!(matches!(
        forward(completed(vec![hit("x")])),
        Forwarded::Passages { hits, .. } if hits.len() == 1
    ));
}

fn answer(text: &str) -> Answer {
    Answer {
        text: text.into(),
        citations: vec![Citation { marker: "[1]".into(), source: "a.txt (bytes 0-3)".into() }],
    }
}

#[test]
fn an_answer_is_owed() {
    let event = AskEvent::Token { delta: "x".into() };
    assert!(collect_answer(None, Ok(event)).unwrap().is_none());
    let event = AskEvent::AnswerComplete { answer: answer("yes"), stats: SearchStats::default() };
    let got = collect_answer(None, Ok(event)).unwrap();
    assert_eq!(answer_or_error(got).unwrap().text, "yes");
    match answer_or_error(None) {
        Err(DocqError::Synth(SynthError::Other(m))) => {
            assert_eq!(m, "ask stream ended without AnswerComplete")
        }
        _ => panic!("there is no answer"),
    }
}

// ---- command line ----

#[test]
fn status_is_printed() {
    let s = status(&Vec::new(), vec![collection("notes", "/n")], 12);
    assert_eq!(
        status_lines("/w", &s),
        vec!["Workspace: /w", "Documents: 0", "Chunks: 12", "Collections: 1", "  notes -> /n"]
    );
}

#[test]
fn counts_are_printed() {
    let stats =
        IndexStats { files_indexed: 3, chunks_indexed: 40, files_skipped: 2, files_removed: 1 };
    assert_eq!(index_line(&stats), "Indexed 3 files (40 chunks, 2 skipped, 1 removed)");
}

#[test]
fn results_are_printed() {
    let scores = |n: &str| ScoreTexts {
        score: n.into(),
        bm25: "Some(1.0)".into(),
        vector: "None".into(),
        rrf: "Some(0.03)".into(),
        rerank: "None".into(),
    };
    assert_eq!(search_lines(&[], &[], true), vec!["No results found."]);
    let hits = [hit(" one \n"), hit("two")];
    assert_eq!(
        search_lines(&hits, &[scores("0.5000"), scores("0.2500")], false),
        vec!["[1] 0.5000 one", "[2] 0.2500 two"]
    );
    assert_eq!(
        search_lines(&hits[..1], &[scores("0.5000")], true),
        vec!["[1] 0.5000 one", "    bm25=Some(1.0) vec=None rrf=Some(0.03) rerank=None"]
    );
}

#[test]
fn answers_are_printed_as_they_come() {
    let out = AskOutput::new();
    let (out, printed) = out.take(AskEvent::StageStarted { stage: SearchStage::Fusion }, false);
    assert_eq!(printed, None);
    let (out, printed) = out.take(AskEvent::Token { delta: "ye".into() }, false);
    assert_eq!(printed.as_deref(), Some("ye"));
    let (out, printed) = out.take(AskEvent::Token { delta: "s".into() }, true);
    assert_eq!(printed, None);
    assert_eq!(out.source_lines(), vec![""]);
    let event = AskEvent::AnswerComplete { answer: answer("yes [1]"), stats: SearchStats::default() };
    let (out, _) = out.take(event, false);
    assert_eq!(out.buffered, "yes");
    assert_eq!(out.source_lines(), vec!["", "", "Sources:", "  [1] a.txt (bytes 0-3)"]);
    assert_eq!(out.whole().text, "yes [1]");
}

#[test]
fn an_incomplete_answer_has_no_sources() {
    let (out, _) = AskOutput::new().take(AskEvent::Token { delta: "half".into() }, true);
    let whole = out.whole();
    assert_eq!(whole.text, "half");
    assert!(whole.citations.is_empty());
}
