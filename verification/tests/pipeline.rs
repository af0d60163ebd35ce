//! Runs the indexing, search and answer pipelines against a store in memory.

use std::collections::{BTreeMap, HashSet};

use semquery::batch::StoreOp;
use semquery::engine::{collect_hits, find_collection, sources_of, status};
use semquery::error::{DocqError, EmbedError, RetrieveError, StoreError};
use semquery::fusion::FusionEntry;
use semquery::indexer::{is_inside, prepare_file, DocumentIndex, IndexStats, PendingFile};
use semquery::indexing::{
    collect_index_stats, DirectoryAction, DirectoryIndexing, DirectoryInput, FileAction,
    FileIndexing, FileInput, Flush, FlushAction, FlushInput, Flushed, IndexSettings, Source,
    SourceAction, SourceIndexing, SourceInput,
};
use semquery::models::{
    Answer, Chunk, ChunkCandidate, Collection, Document, DocumentSource, IndexEvent, ModelRole, ModelSpec,
    ScoredChunk, ScoredId, SearchEvent, SearchHit, SearchStage, SearchStats, Timestamp,
};
use semquery::reader::TextFileReader;
use semquery::reader_registry::ReaderRegistry;
use semquery::retriever::DocumentPath;
use semquery::score::Score;
use semquery::search::{
    Recall, RecallAction, RecallInput, RecallResult, RetrieverConfig, Search, SearchAction,
    SearchInput,
};
use semquery::synthesizer::{Ask, AskAction, AskInput, Synthesizer, SynthesizerConfig};
use semquery::tokenizer::{jieba_tokenize, JiebaSegmenter};
use semquery::traits::Chunker;
use semquery::verbose::Verbose;

struct StubChunker;

impl Chunker for StubChunker {
    fn chunk(&self, text: &str) -> Vec<ChunkCandidate> {
        if text.trim().is_empty() {
            return Vec::new();
        }
        vec![ChunkCandidate { text: text.to_string(), byte_range: 0..text.len() }]
    }
}

fn hash_embedding(text: &str, dim: usize) -> Vec<u32> {
    let mut vec = vec![0.0_f32; dim];
    for (i, byte) in text.bytes().enumerate() {
        vec[i % dim] += byte as f32 / 255.0;
    }
    vec.into_iter().map(f32::to_bits).collect()
}

fn similarity(a: &[u32], b: &[u32]) -> f32 {
    let dot = |x: &[u32], y: &[u32]| -> f32 {
        x.iter().zip(y).map(|(p, q)| f32::from_bits(*p) * f32::from_bits(*q)).sum()
    };
    dot(a, b) / (dot(a, a).sqrt() * dot(b, b).sqrt())
}

#[derive(Default)]
struct Store {
    files: BTreeMap<String, String>,
    documents: Vec<Document>,
    paths: BTreeMap<String, String>,
    chunks: Vec<Chunk>,
    chunk_documents: HashSet<(String, String)>,
    vectors: BTreeMap<String, Vec<u32>>,
    words: BTreeMap<String, String>,
    model: Option<ModelSpec>,
    meta: Option<String>,
    open: bool,
}

impl Store {
    fn delete_chunks(&mut self, doc_id: &str) {
        self.chunk_documents.retain(|(_, d)| d != doc_id);
        let kept: HashSet<String> = self.chunk_documents.iter().map(|(c, _)| c.clone()).collect();
        self.chunks.retain(|c| kept.contains(&c.id));
        self.vectors.retain(|id, _| kept.contains(id));
        self.words.retain(|id, _| kept.contains(id));
    }

    fn delete_document(&mut self, doc_id: &str) {
        self.documents.retain(|d| d.id != doc_id);
        self.paths.remove(doc_id);
    }

    fn perform(&mut self, op: StoreOp) {
        if !matches!(op, StoreOp::Begin) {
            assert!(self.open, "all writes belong to a transaction");
        }
        match op {
            StoreOp::Begin => {
                assert!(!self.open);
                self.open = true;
            }
            StoreOp::Commit => self.open = false,
            StoreOp::AddDocument(doc) => {
                self.documents.retain(|d| d.id != doc.id);
                self.documents.push(doc);
            }
            StoreOp::SetDocumentPath { doc_id, path } => {
                self.paths.insert(doc_id, path);
            }
            StoreOp::DeleteDocument { doc_id } => self.delete_document(&doc_id),
            StoreOp::AddChunks(chunks) => {
                for c in chunks {
                    if !self.chunks.iter().any(|known| known.id == c.id) {
                        self.chunks.push(c);
                    }
                }
            }
            StoreOp::AddChunkDocuments { chunk_ids, doc_id } => {
                for c in chunk_ids {
                    self.chunk_documents.insert((c, doc_id.clone()));
                }
            }
            StoreOp::DeleteChunksByDoc { doc_id } => self.delete_chunks(&doc_id),
            StoreOp::AddVectors { chunk_ids, embeddings } => {
                assert_eq!(chunk_ids.len(), embeddings.len());
                for (id, v) in chunk_ids.into_iter().zip(embeddings) {
                    self.vectors.insert(id, v);
                }
            }
            StoreOp::AddFtsChunks { chunk_ids, texts } => {
                assert_eq!(chunk_ids.len(), texts.len());
                for (id, t) in chunk_ids.into_iter().zip(texts) {
                    self.words.insert(id, t);
                }
            }
        }
    }

    fn search_text(&self, query: &str, top_k: usize) -> Vec<ScoredId> {
        let wanted: Vec<&str> = query.split_whitespace().map(|t| t.trim_matches('"')).collect();
        let mut found: Vec<(String, f32)> = Vec::new();
        for (id, words) in &self.words {
            let words: Vec<&str> = words.split_whitespace().collect();
            if !wanted.is_empty() && wanted.iter().all(|w| words.contains(w)) {
                found.push((id.clone(), 1.0 / words.len() as f32));
            }
        }
        found.sort_by(|a, b| b.1.total_cmp(&a.1));
        found.truncate(top_k);
        found
            .into_iter()
            .map(|(id, s)| ScoredId { id, score: Score { bits: s.to_bits() } })
            .collect()
    }

    fn search_vectors(&self, embedding: &[u32], top_k: usize) -> Vec<ScoredId> {
        let mut found: Vec<(String, f32)> =
            self.vectors.iter().map(|(id, v)| (id.clone(), similarity(embedding, v))).collect();
        found.sort_by(|a, b| b.1.total_cmp(&a.1));
        found.truncate(top_k);
        found
            .into_iter()
            .map(|(id, s)| ScoredId { id, score: Score { bits: s.to_bits() } })
            .collect()
    }

    fn paths_of(&self, ids: &[String]) -> Vec<DocumentPath> {
        ids.iter()
            .filter_map(|id| {
                let path = self.paths.get(id)?;
                Some(DocumentPath { doc_id: id.clone(), path: path.clone() })
            })
            .collect()
    }
}

fn readers() -> ReaderRegistry {
    let mut reg = ReaderRegistry::new();
    reg.register(&TextFileReader::new());
    reg
}

fn name_of(path: &str) -> &str {
    path.rsplit('/').next().unwrap()
}

fn extension_of(path: &str) -> Option<&str> {
    name_of(path).rsplit_once('.').map(|(_, e)| e)
}

fn spec(repo_id: &str) -> ModelSpec {
    ModelSpec {
        role: ModelRole::Embedding,
        repo_id: repo_id.into(),
        filename: "model.onnx".into(),
        revision: "main".into(),
        checksum: None,
    }
}

fn settings() -> IndexSettings {
    IndexSettings { embedding_spec: spec("stub/embedding"), chunk_size: 1024, chunk_overlap: 102 }
}

fn read(store: &Store, path: &str) -> Option<DocumentSource> {
    readers().reader_for(name_of(path), extension_of(path))?;
    let content = store.files.get(path)?;
    TextFileReader::new().document(path, content.clone().into_bytes())
}

fn prepare(source: &DocumentSource, existing: &DocumentIndex, force: bool) -> Option<PendingFile> {
    prepare_file(
        &source.path,
        &source.content,
        existing,
        force,
        &StubChunker,
        &JiebaSegmenter,
    )
}

fn flush(store: &mut Store, files: Vec<PendingFile>, events: &mut Vec<IndexEvent>) -> Result<Flushed, DocqError> {
    let mut state = Flush::Ready { files };
    let mut input = FlushInput::Start;
    loop {
        let (next, action) = state.next(input);
        state = next;
        input = match action {
            FlushAction::Send(event) => {
                events.push(event);
                FlushInput::Sent(true)
            }
            FlushAction::Embed(texts) => {
                FlushInput::Embedded(Ok(texts.iter().map(|t| hash_embedding(t, 512)).collect()))
            }
            FlushAction::Write(ops) => {
                for op in ops {
                    store.perform(op);
                }
                FlushInput::Written(Ok(()))
            }
            FlushAction::Return(r) => return r,
            FlushAction::Stop => panic!("a batch ends with a result"),
        };
    }
}

fn index_file_with(
    store: &mut Store,
    path: &str,
    settings: IndexSettings,
    events: &mut Vec<IndexEvent>,
) -> Result<IndexStats, DocqError> {
    let mut state = FileIndexing::Ready { path: path.to_string(), settings };
    let mut input = FileInput::Start;
    loop {
        let (next, action) = state.next(input);
        state = next;
        input = match action {
            FileAction::Send(event) => {
                events.push(event);
                FileInput::Sent(true)
            }
            FileAction::Read { path } => FileInput::Read(Ok(read(store, &path))),
            FileAction::ListDocuments => FileInput::Documents(Ok(store.documents.clone())),
            FileAction::GetModel => FileInput::Model(Ok(store.model.clone())),
            FileAction::GetMeta => FileInput::Meta(Ok(store.meta.clone())),
            FileAction::Prepare { source, existing, force } => {
                FileInput::Prepared(prepare(&source, &existing, force))
            }
            FileAction::Flush(files) => FileInput::Flushed(flush(store, files, events)),
            FileAction::UpdateMeta { spec, mark } => {
                store.model = Some(spec);
                store.meta = Some(mark);
                FileInput::Updated(Ok(()))
            }
            FileAction::Return(r) => return r,
            FileAction::Stop => panic!("a file run ends with a result"),
        };
    }
}

fn index_file(store: &mut Store, path: &str) -> IndexStats {
    index_file_with(store, path, settings(), &mut Vec::new()).unwrap()
}

fn list_files(store: &Store, dir: &str) -> Vec<String> {
    let reg = readers();
    let prefix = format!("{dir}/");
    store
        .files
        .keys()
        .filter(|p| {
            let Some(rest) = p.strip_prefix(&prefix) else { return false };
            let parts: Vec<&str> = rest.split('/').collect();
            parts.iter().enumerate().all(|(i, part)| reg.enters(i + 1, part))
                && reg.lists(true, extension_of(p))
        })
        .cloned()
        .collect()
}

fn index_directory(
    store: &mut Store,
    dir: &str,
    events: &mut Vec<IndexEvent>,
) -> Result<IndexStats, DocqError> {
    let mut state = DirectoryIndexing::Ready { dir: dir.to_string(), settings: settings() };
    let mut input = DirectoryInput::Start;
    loop {
        let (next, action) = state.next(input);
        state = next;
        input = match action {
            DirectoryAction::Send(event) => {
                events.push(event);
                DirectoryInput::Sent(true)
            }
            DirectoryAction::ListFiles { dir } => DirectoryInput::Files(Ok(list_files(store, &dir))),
            DirectoryAction::ListDocuments => {
                DirectoryInput::Documents(Ok(store.documents.clone()))
            }
            DirectoryAction::FetchPaths(ids) => DirectoryInput::Paths(Ok(store.paths_of(&ids))),
            DirectoryAction::Remove { doc_id } => {
                store.delete_chunks(&doc_id);
                store.delete_document(&doc_id);
                DirectoryInput::Removed(Ok(()))
            }
            DirectoryAction::GetModel => DirectoryInput::Model(Ok(store.model.clone())),
            DirectoryAction::GetMeta => DirectoryInput::Meta(Ok(store.meta.clone())),
            DirectoryAction::Prepare { files, existing, force } => {
                let list = files
                    .iter()
                    .map(|f| read(store, f).and_then(|s| prepare(&s, &existing, force)))
                    .collect();
                DirectoryInput::Prepared(Ok(list))
            }
            DirectoryAction::Flush(files) => DirectoryInput::Flushed(flush(store, files, events)),
            DirectoryAction::UpdateMeta { spec, mark } => {
                store.model = Some(spec);
                store.meta = Some(mark);
                DirectoryInput::Updated(Ok(()))
            }
            DirectoryAction::Return(r) => return r,
            DirectoryAction::Stop => panic!("a directory run ends with a result"),
        };
    }
}

fn index_sources(store: &mut Store, sources: Vec<Source>) -> Vec<IndexEvent> {
    let mut events = Vec::new();
    let mut state = SourceIndexing::new(sources);
    let mut input = SourceInput::Start;
    loop {
        let (next, action) = state.next(input);
        state = next;
        input = match action {
            SourceAction::Index { path } => {
                let r = index_directory(store, &path, &mut events);
                SourceInput::Indexed(r)
            }
            SourceAction::Send(event) => {
                events.push(event);
                SourceInput::Sent(true)
            }
            SourceAction::Stop => return events,
        };
    }
}

// ---- search ----

type Rerank = fn(&[Chunk]) -> Result<Vec<ScoredChunk>, DocqError>;

fn recall(store: &Store, start: Recall, events: &mut Vec<SearchEvent>) -> Result<RecallResult, DocqError> {
    let mut state = start;
    let mut input = RecallInput::Start;
    let mut clock = 0;
    loop {
        clock += 1_000_000;
        let (next, action) = state.next(input, clock);
        state = next;
        input = match action {
            RecallAction::Send(event) => {
                events.push(event);
                RecallInput::Sent
            }
            RecallAction::Segment(query) => RecallInput::Segmented(jieba_tokenize(&query)),
            RecallAction::SearchText { query, top_k } => {
                RecallInput::Found(Ok(store.search_text(&query, top_k)))
            }
            RecallAction::Embed(text) => {
                RecallInput::Embedded(Ok(vec![hash_embedding(&text, 512)]))
            }
            RecallAction::SearchVectors { embedding, top_k } => {
                RecallInput::Found(Ok(store.search_vectors(&embedding, top_k)))
            }
            RecallAction::Return(r) => return r,
            RecallAction::Stop => panic!("a recall ends with a result"),
        };
    }
}

fn fused_score(entry: &FusionEntry, rrf_k: usize) -> Score {
    let mut sum = 0.0_f32;
    for rank in [entry.bm25_rank, entry.vector_rank].into_iter().flatten() {
        sum += 1.0 / (rrf_k + rank) as f32;
    }
    Score { bits: sum.to_bits() }
}

fn search_events(
    store: &Store,
    query: &str,
    top_k: usize,
    rerank: Option<Rerank>,
) -> (Vec<SearchEvent>, Option<DocqError>) {
    search_events_scored(store, query, top_k, rerank, &|entry, rrf_k| fused_score(entry, rrf_k))
}

fn search_events_scored(
    store: &Store,
    query: &str,
    top_k: usize,
    rerank: Option<Rerank>,
    score: &dyn Fn(&FusionEntry, usize) -> Score,
) -> (Vec<SearchEvent>, Option<DocqError>) {
    let config = RetrieverConfig {
        bm25_top_k: 100,
        vector_top_k: 100,
        rrf_k: 60,
        rerank_top_n: 20,
        reranks: rerank.is_some(),
    };
    let mut events = Vec::new();
    let mut state = Search::new(query.to_string(), top_k, config);
    let mut input = SearchInput::Start;
    let mut clock = 0;
    loop {
        clock += 1_000_000;
        let (next, action) = state.next(input, clock);
        state = next;
        input = match action {
            SearchAction::Recall { query, bm25_top_k, vector_top_k } => SearchInput::Recalled {
                bm25: recall(
                    store,
                    Recall::Bm25 { query: query.clone(), top_k: bm25_top_k },
                    &mut events,
                ),
                vector: recall(store, Recall::Vector { query, top_k: vector_top_k }, &mut events),
            },
            SearchAction::Send(event) => {
                events.push(event);
                SearchInput::Sent(true)
            }
            SearchAction::Fuse { candidates, rrf_k } => {
                SearchInput::Fused(candidates.iter().map(|c| score(c, rrf_k)).collect())
            }
            SearchAction::FetchChunks(ids) => SearchInput::Chunks(Ok(store
                .chunks
                .iter()
                .filter(|c| ids.contains(&c.id))
                .cloned()
                .collect())),
            SearchAction::Rerank { chunks, .. } => {
                SearchInput::Reranked(rerank.expect("there is a reranker")(&chunks))
            }
            SearchAction::FetchPaths(ids) => SearchInput::Paths(Ok(store.paths_of(&ids))),
            SearchAction::ReadClock => SearchInput::Tick,
            SearchAction::Stop => return (events, None),
            SearchAction::Fail(e) => return (events, Some(e)),
        };
    }
}

fn search(store: &Store, query: &str, top_k: usize, rerank: Option<Rerank>) -> Vec<SearchHit> {
    let (events, error) = search_events(store, query, top_k, rerank);
    assert!(error.is_none());
    match events.into_iter().last() {
        Some(SearchEvent::Completed { hits, .. }) => hits,
        _ => panic!("last event must be Completed"),
    }
}

fn stub_rerank(chunks: &[Chunk]) -> Result<Vec<ScoredChunk>, DocqError> {
    Ok(chunks
        .iter()
        .enumerate()
        .map(|(i, c)| ScoredChunk {
            chunk: c.clone(),
            score: Score { bits: ((chunks.len() - i) as f32).to_bits() },
        })
        .collect())
}

fn partial_negative_rerank(chunks: &[Chunk]) -> Result<Vec<ScoredChunk>, DocqError> {
    Ok(chunks
        .first()
        .cloned()
        .map(|chunk| ScoredChunk { chunk, score: Score { bits: (-1.0_f32).to_bits() } })
        .into_iter()
        .collect())
}

fn rising_rerank(chunks: &[Chunk]) -> Result<Vec<ScoredChunk>, DocqError> {
    Ok(chunks
        .iter()
        .enumerate()
        .map(|(i, c)| ScoredChunk {
            chunk: c.clone(),
            score: Score { bits: (i as f32 - 1.5).to_bits() },
        })
        .collect())
}

fn failing_rerank(_chunks: &[Chunk]) -> Result<Vec<ScoredChunk>, DocqError> {
    Err(DocqError::Retrieve(RetrieveError::RerankFailed("out of memory".into())))
}

fn value(score: Score) -> f32 {
    f32::from_bits(score.bits)
}

fn seeded(texts: &[(&str, &str)]) -> Store {
    let mut store = Store::default();
    for (filename, content) in texts {
        let path = format!("/notes/{filename}");
        store.files.insert(path.clone(), content.to_string());
        index_file(&mut store, &path);
    }
    store
}

fn ask(store: &Store, query: &str, response: &str) -> (Answer, Vec<String>) {
    let synth = Synthesizer::new(SynthesizerConfig { verbose: Verbose(false) });
    let mut prompts = Vec::new();
    let mut state: Ask = synth.ask(query);
    let mut input = AskInput::Start;
    loop {
        let (next, action) = state.next(input);
        state = next;
        input = match action {
            AskAction::Search { query, top_k } => {
                AskInput::Retrieved(Ok(search(store, &query, top_k, None)))
            }
            AskAction::Generate { prompt } => {
                prompts.push(prompt);
                AskInput::Generated(Ok(response.to_string()))
            }
            AskAction::Return(r) => return (r.unwrap(), prompts),
            AskAction::Stop => panic!("asking ends with an answer"),
        };
    }
}

// ---- indexing ----

#[test]
fn test_index_file_basic() {
    let mut store = Store::default();
    store.files.insert("/d/note.txt".into(), "hello world".into());
    let stats = index_file(&mut store, "/d/note.txt");
    assert_eq!(stats.files_indexed, 1);
    assert_eq!(stats.chunks_indexed, 1);
    assert_eq!(stats.files_skipped, 0);
}

#[test]
fn documents_carry_the_time_of_indexing() {
    let mut store = Store::default();
    store.files.insert("/d/note.txt".into(), "hello world".into());
    index_file(&mut store, "/d/note.txt");
    let now = chrono::Utc::now().timestamp();
    let at = store.documents[0].indexed_at;
    assert!(now - 60 <= at.secs && at.secs <= now);
    assert_eq!(store.documents[0].content_size, 11);
}

#[test]
fn test_index_file_skip_unchanged() {
    let mut store = Store::default();
    store.files.insert("/d/note.txt".into(), "hello world".into());
    let stats1 = index_file(&mut store, "/d/note.txt");
    assert_eq!(stats1.chunks_indexed, 1);

    let stats2 = index_file(&mut store, "/d/note.txt");
    assert_eq!(stats2.files_skipped, 1);
    assert_eq!(stats2.chunks_indexed, 0);
}

#[test]
fn test_index_file_reindex_on_change() {
    let mut store = Store::default();
    store.files.insert("/d/note.txt".into(), "hello world".into());
    let stats1 = index_file(&mut store, "/d/note.txt");
    assert_eq!(stats1.chunks_indexed, 1);

    store.files.insert("/d/note.txt".into(), "changed content".into());
    let stats2 = index_file(&mut store, "/d/note.txt");
    assert_eq!(stats2.files_indexed, 1);
    assert_eq!(stats2.chunks_indexed, 1);
    assert_eq!(stats2.files_skipped, 0);
    assert_eq!(store.chunks.len(), 1);
    assert_eq!(store.chunks[0].text, "changed content");
}

#[test]
fn test_index_directory() {
    let mut store = Store::default();
    store.files.insert("/d/a.txt".into(), "first file".into());
    store.files.insert("/d/b.md".into(), "second file".into());
    store.files.insert("/d/c.bin".into(), "binary".into());

    let stats = index_directory(&mut store, "/d", &mut Vec::new()).unwrap();
    assert_eq!(stats.files_indexed, 2);
    assert_eq!(stats.chunks_indexed, 2);
}

#[test]
fn test_index_directory_removes_deleted_files() {
    let mut store = Store::default();
    store.files.insert("/d/a.txt".into(), "first file".into());
    store.files.insert("/d/b.txt".into(), "second file".into());
    index_directory(&mut store, "/d", &mut Vec::new()).unwrap();
    assert_eq!(store.documents.len(), 2);

    store.files.remove("/d/a.txt");
    let stats = index_directory(&mut store, "/d", &mut Vec::new()).unwrap();
    assert_eq!(stats.files_removed, 1);
    assert_eq!(stats.files_indexed, 0);
    assert_eq!(store.documents.len(), 1);
}

#[test]
fn test_index_then_search() {
    let mut store = Store::default();
    store.files.insert("/d/note.txt".into(), "分布式共识算法".into());
    index_file(&mut store, "/d/note.txt");
    let hits = store.search_text("共识 算法", 10);
    assert_eq!(hits.len(), 1);
}

#[test]
fn test_model_upgrade_triggers_reembed() {
    let mut store = Store::default();
    store.files.insert("/d/note.txt".into(), "hello world".into());
    let with = |repo: &str| IndexSettings {
        embedding_spec: spec(repo),
        chunk_size: 1024,
        chunk_overlap: 102,
    };
    let mut events = Vec::new();
    let stats1 =
        index_file_with(&mut store, "/d/note.txt", with("stub/embedding-v1"), &mut events).unwrap();
    assert_eq!(stats1.files_indexed, 1);

    let stats2 =
        index_file_with(&mut store, "/d/note.txt", with("stub/embedding-v1"), &mut events).unwrap();
    assert_eq!(stats2.files_skipped, 1, "same model: file should be skipped");

    let stats3 =
        index_file_with(&mut store, "/d/note.txt", with("stub/embedding-v2"), &mut events).unwrap();
    assert_eq!(stats3.files_indexed, 1, "model changed: file must be re-embedded");
    assert_eq!(store.model.unwrap().repo_id, "stub/embedding-v2");
}

#[test]
fn other_chunking_triggers_reembedding() {
    let mut store = Store::default();
    store.files.insert("/d/note.txt".into(), "hello world".into());
    index_file(&mut store, "/d/note.txt");
    let smaller =
        IndexSettings { embedding_spec: spec("stub/embedding"), chunk_size: 512, chunk_overlap: 51 };
    let stats =
        index_file_with(&mut store, "/d/note.txt", smaller, &mut Vec::new()).unwrap();
    assert_eq!(stats.files_indexed, 1);
}

#[test]
fn files_of_other_directories_are_kept() {
    let mut store = Store::default();
    store.files.insert("/d/a.txt".into(), "first file".into());
    store.files.insert("/e/b.txt".into(), "second file".into());
    index_directory(&mut store, "/d", &mut Vec::new()).unwrap();
    index_directory(&mut store, "/e", &mut Vec::new()).unwrap();
    store.files.remove("/d/a.txt");
    let stats = index_directory(&mut store, "/e", &mut Vec::new()).unwrap();
    assert_eq!(stats.files_removed, 0);
    assert_eq!(store.documents.len(), 2);
}

#[test]
fn ignored_files_are_not_indexed() {
    let mut store = Store::default();
    store.files.insert("/d/a.txt".into(), "first file".into());
    store.files.insert("/d/.hidden.txt".into(), "hidden".into());
    store.files.insert("/d/target/out.txt".into(), "build output".into());
    let stats = index_directory(&mut store, "/d", &mut Vec::new()).unwrap();
    assert_eq!(stats.files_indexed, 1);
}

#[test]
fn every_listed_file_is_counted() {
    let mut store = Store::default();
    for i in 0..12 {
        store.files.insert(format!("/d/{i}.txt"), format!("file number {i}"));
    }
    store.files.insert("/d/blank.txt".into(), "  \n ".into());
    let stats = index_directory(&mut store, "/d", &mut Vec::new()).unwrap();
    assert_eq!(stats.files_indexed, 12);
    assert_eq!(stats.files_skipped, 1);
    store.files.insert("/d/3.txt".into(), "something else".into());
    let stats = index_directory(&mut store, "/d", &mut Vec::new()).unwrap();
    assert_eq!(stats.files_indexed, 1);
    assert_eq!(stats.files_skipped, 12);
    assert!(!store.open);
}

#[test]
fn shared_chunks_are_stored_once_and_survive_one_file() {
    let mut store = Store::default();
    store.files.insert("/d/a.txt".into(), "shared text".into());
    store.files.insert("/d/b.txt".into(), "shared text".into());
    index_directory(&mut store, "/d", &mut Vec::new()).unwrap();
    assert_eq!(store.chunks.len(), 1);
    store.files.remove("/d/a.txt");
    index_directory(&mut store, "/d", &mut Vec::new()).unwrap();
    assert_eq!(store.chunks.len(), 1);
    store.files.remove("/d/b.txt");
    index_directory(&mut store, "/d", &mut Vec::new()).unwrap();
    assert!(store.chunks.is_empty());
    assert!(store.vectors.is_empty());
}

#[test]
fn test_engine_index_stream() {
    let mut store = Store::default();
    store.files.insert("/n/note.txt".into(), "今天是我的生日".into());
    let sources = vec![Source { id: "notes".into(), path: "/n".into() }];
    let events = index_sources(&mut store, sources);

    let mut completed = None;
    let mut source_complete = None;
    for event in events {
        match event {
            IndexEvent::SourceComplete { source_id, chunks } => {
                source_complete = Some((source_id, chunks))
            }
            IndexEvent::Complete { files, chunks, .. } => completed = Some((files, chunks)),
            _ => {}
        }
    }
    assert!(completed.is_some());
    let (files, chunks) = completed.unwrap();
    assert_eq!(files, 1);
    assert!(chunks > 0);
    assert_eq!(source_complete.map(|(id, _)| id), Some("notes".to_string()));
}

fn notes_store(content: &str) -> (Store, Vec<Source>) {
    let mut store = Store::default();
    store.files.insert("/n/note.txt".into(), content.into());
    let collections = vec![Collection { name: "notes".into(), path: "/n".into() }];
    (store, sources_of(collections))
}

#[test]
fn test_engine_index_and_search() {
    let (mut store, sources) = notes_store("今天是我的生日");
    let mut stats = IndexStats::default();
    for event in index_sources(&mut store, sources) {
        stats = collect_index_stats(stats, Ok(event)).unwrap();
    }
    assert!(stats.chunks_indexed > 0);

    let hits = search(&store, "生日", 5, None);
    assert!(!hits.is_empty());
    assert!(hits[0].chunk.text.contains("生日"));
}

#[test]
fn test_engine_search_stream() {
    let (mut store, sources) = notes_store("今天是我的生日");
    index_sources(&mut store, sources);

    let (events, error) = search_events(&store, "生日", 5, None);
    assert!(error.is_none());
    let mut completed_hits = Vec::new();
    for event in events {
        completed_hits = collect_hits(completed_hits, Ok(event)).unwrap();
    }
    assert!(!completed_hits.is_empty());
    assert!(completed_hits[0].chunk.text.contains("生日"));
}

#[test]
fn test_engine_index_one_stream() {
    let (mut store, _) = notes_store("定价方案选坐席制");
    let known = vec![
        Collection { name: "other".into(), path: "/o".into() },
        Collection { name: "notes".into(), path: "/n".into() },
    ];
    let found = find_collection(known, "notes").unwrap();
    let events = index_sources(&mut store, sources_of(vec![found]));

    let mut completed = None;
    for event in events {
        if let IndexEvent::Complete { files, chunks, .. } = event {
            completed = Some((files, chunks));
        }
    }
    assert!(completed.is_some());
    let (files, chunks) = completed.unwrap();
    assert_eq!(files, 1);
    assert!(chunks > 0);
}

#[test]
fn test_index_then_data_only_reads_indexed_data() {
    let (mut store, sources) = notes_store("今天是我的生日");
    index_sources(&mut store, sources);

    let collections = vec![Collection { name: "notes".into(), path: "/n".into() }];
    let status = status(&store.documents, collections, store.chunks.len());
    assert_eq!(status.documents, 1);
    assert!(status.chunks > 0);
    assert_eq!(status.collections.len(), 1);
    let id = store.documents[0].id.clone();
    let index = DocumentIndex::new(store.documents);
    assert!(index.get(&id).is_some());
}

#[test]
fn collected_counts_are_those_of_the_last_completion() {
    let mut store = Store::default();
    store.files.insert("/a/1.txt".into(), "one".into());
    store.files.insert("/b/2.txt".into(), "two".into());
    store.files.insert("/b/3.txt".into(), "three".into());
    let sources = vec![
        Source { id: "a".into(), path: "/a".into() },
        Source { id: "b".into(), path: "/b".into() },
    ];
    let mut stats = IndexStats::default();
    for event in index_sources(&mut store, sources) {
        stats = collect_index_stats(stats, Ok(event)).unwrap();
    }
    assert_eq!(stats.files_indexed, 3);
    assert_eq!(stats.chunks_indexed, 3);
    let failed = Err(DocqError::Store(StoreError::InvalidDimension));
    assert!(collect_index_stats(stats, failed).is_err());
}

#[test]
fn a_failed_embedding_writes_nothing() {
    let existing = DocumentIndex::new(Vec::new());
    let source = DocumentSource { path: "/d/a.txt".into(), content: "text".into() };
    let file = prepare(&source, &existing, false).unwrap();
    let (state, _) = Flush::Ready { files: vec![file] }.next(FlushInput::Start);
    let (state, action) = state.next(FlushInput::Sent(true));
    assert!(matches!(action, FlushAction::Embed(texts) if texts == vec!["text".to_string()]));
    let failure = DocqError::Embed(EmbedError::InferenceFailed("no".into()));
    let (_, action) = state.next(FlushInput::Embedded(Err(failure)));
    assert!(matches!(action, FlushAction::Return(Err(DocqError::Embed(_)))));
}

#[test]
fn a_gone_consumer_gets_the_files_back() {
    let existing = DocumentIndex::new(Vec::new());
    let source = DocumentSource { path: "/d/a.txt".into(), content: "text".into() };
    let file = prepare(&source, &existing, false).unwrap();
    let (state, _) = Flush::Ready { files: vec![file] }.next(FlushInput::Start);
    let (_, action) = state.next(FlushInput::Sent(false));
    match action {
        FlushAction::Return(Ok(Flushed::Left(files))) => assert_eq!(files[0].path, "/d/a.txt"),
        _ => panic!("the files were not written"),
    }
}

// ---- search ----

#[test]
fn test_hybrid_search_returns_results() {
    let store = seeded(&[
        ("a.txt", "今天是我的生日"),
        ("b.txt", "分布式共识算法"),
        ("c.txt", "天气不错"),
    ]);
    let hits = search(&store, "生日", 5, None);
    assert!(!hits.is_empty());
    assert!(value(hits[0].score) > 0.0);
    assert!(
        hits[0].chunk.text.contains("生日"),
        "top hit should contain '生日', got: {}",
        hits[0].chunk.text
    );
    assert_eq!(hits[0].file_path, "/notes/a.txt");
}

#[test]
fn test_hybrid_search_score_explain() {
    let store = seeded(&[("a.txt", "共识算法解决一致性问题"), ("b.txt", "Raft共识算法")]);
    let hits = search(&store, "共识算法", 5, None);
    assert!(!hits.is_empty());
    for hit in &hits {
        let exp = &hit.explain;
        assert!(exp.rrf_score.is_some());
        assert_eq!(exp.final_score, exp.rrf_score.unwrap());
        assert!(exp.rerank_score.is_none());
    }
}

#[test]
fn test_hybrid_search_empty_query() {
    let store = seeded(&[("a.txt", "hello")]);
    let (_, error) = search_events(&store, "", 5, None);
    assert!(error.is_none());
}

#[test]
fn test_hybrid_search_no_results() {
    let store = Store::default();
    let hits = search(&store, "不存在的内容", 5, None);
    assert!(hits.is_empty());
}

#[test]
fn test_hybrid_search_with_reranker() {
    let store = seeded(&[
        ("a.txt", "今天是我的生日"),
        ("b.txt", "分布式共识算法"),
        ("c.txt", "天气不错"),
    ]);
    let hits = search(&store, "生日", 5, Some(stub_rerank));
    assert!(!hits.is_empty());
    for hit in &hits {
        assert!(hit.explain.rerank_score.is_some());
        assert_eq!(hit.score, hit.explain.final_score);
        assert_eq!(hit.score, hit.explain.rerank_score.unwrap());
    }
}

#[test]
fn test_scored_candidates_sort_before_missing_rerank_scores() {
    let store = seeded(&[("a.txt", "consensus algorithm"), ("b.txt", "distributed system")]);
    let hits = search(&store, "consensus", 2, Some(partial_negative_rerank));
    assert_eq!(hits.len(), 2);
    assert_eq!(hits[0].explain.rerank_score.map(value), Some(-1.0));
    assert!(hits[1].explain.rerank_score.is_none());
    // Unscored candidates fall back to the fused score as their final score.
    assert_eq!(hits[1].score, hits[1].explain.rrf_score.unwrap());
}

#[test]
fn test_prepare_candidates_keeps_rrf_order_for_unscored() {
    let store = seeded(&[
        ("a.txt", "consensus alpha"),
        ("b.txt", "consensus beta"),
        ("c.txt", "consensus gamma"),
    ]);
    let bm25 =
        recall(&store, Recall::Bm25 { query: "consensus".into(), top_k: 100 }, &mut Vec::new());
    assert_eq!(bm25.unwrap().hits.len(), 3, "bm25 should recall all three chunks");

    let id_of = |text: &str| store.chunks.iter().find(|c| c.text == text).unwrap().id.clone();
    let (id_a, id_b, id_c) =
        (id_of("consensus alpha"), id_of("consensus beta"), id_of("consensus gamma"));

    // Fixed fused order A > B > C with strictly decreasing scores.
    let fixed = |entry: &FusionEntry, _: usize| {
        let score: f32 = if entry.id == id_a {
            0.03
        } else if entry.id == id_b {
            0.02
        } else {
            0.01
        };
        Score { bits: score.to_bits() }
    };
    let (events, error) =
        search_events_scored(&store, "consensus", 3, Some(partial_negative_rerank), &fixed);
    assert!(error.is_none());
    let Some(SearchEvent::Completed { hits, .. }) = events.into_iter().last() else {
        panic!("last event must be Completed");
    };

    // The reranker only scored the first candidate; B and C keep their
    // relative order behind it.
    let scored: Vec<(String, f32)> = hits
        .iter()
        .filter_map(|h| h.explain.rerank_score.map(|s| (h.chunk.id.clone(), value(s))))
        .collect();
    assert_eq!(scored, vec![(id_a.clone(), -1.0)]);
    let ordered: Vec<String> = hits.into_iter().map(|h| h.chunk.id).collect();
    assert_eq!(ordered, vec![id_a, id_b, id_c]);
}

#[test]
fn test_search_stream_event_order() {
    let store = seeded(&[("a.txt", "consensus alpha"), ("b.txt", "consensus beta")]);
    let (events, error) = search_events(&store, "consensus", 5, None);
    assert!(error.is_none(), "stream must not error");

    let Some(SearchEvent::Completed { hits, stats }) = events.last() else {
        panic!("last event must be Completed");
    };
    assert!(!hits.is_empty());
    assert!(stats.total_ms > 0 || stats.total_ms == 0);

    for ev in &events[..events.len() - 1] {
        match ev {
            SearchEvent::StageStarted { .. } | SearchEvent::StageFinished { .. } => {}
            other => panic!("unexpected event before Completed: {other:?}"),
        }
    }

    let mut started = HashSet::new();
    let mut finished = HashSet::new();
    for ev in &events {
        match ev {
            SearchEvent::StageStarted { stage } => {
                started.insert(*stage);
            }
            SearchEvent::StageFinished { stage, .. } => {
                finished.insert(*stage);
            }
            _ => {}
        }
    }
    assert_eq!(started, finished, "each stage must have started and finished");
    assert!(started.contains(&SearchStage::Bm25Recall));
    assert!(started.contains(&SearchStage::VectorRecall));
    assert!(started.contains(&SearchStage::Rerank));
}

#[test]
fn a_search_gives_no_more_than_asked_for() {
    let texts: Vec<(String, String)> =
        (0..9).map(|i| (format!("{i}.txt"), format!("consensus {i}"))).collect();
    let texts: Vec<(&str, &str)> = texts.iter().map(|(a, b)| (a.as_str(), b.as_str())).collect();
    let store = seeded(&texts);
    assert_eq!(search(&store, "consensus", 4, None).len(), 4);
    assert_eq!(search(&store, "consensus", 4, Some(stub_rerank)).len(), 4);
    assert_eq!(search(&store, "consensus", 0, None).len(), 0);
    assert_eq!(search(&store, "consensus", 50, None).len(), 9);
}

#[test]
fn hits_come_best_first() {
    let store = seeded(&[
        ("a.txt", "consensus alpha"),
        ("b.txt", "consensus beta"),
        ("c.txt", "consensus gamma"),
        ("d.txt", "something else"),
    ]);
    let fused = search(&store, "consensus", 4, None);
    assert_eq!(fused.len(), 4);
    assert!(fused.windows(2).all(|w| value(w[0].score) >= value(w[1].score)));

    let reranked = search(&store, "consensus", 4, Some(rising_rerank));
    let scores: Vec<f32> = reranked.iter().map(|h| value(h.score)).collect();
    assert_eq!(scores, vec![1.5, 0.5, -0.5, -1.5]);
    let ids: Vec<&str> = reranked.iter().map(|h| h.chunk.id.as_str()).collect();
    let turned: Vec<&str> = fused.iter().rev().map(|h| h.chunk.id.as_str()).collect();
    assert_eq!(ids, turned);
}

#[test]
fn a_failing_reranker_fails_the_search() {
    let store = seeded(&[("a.txt", "consensus alpha")]);
    let (events, error) = search_events(&store, "consensus", 5, Some(failing_rerank));
    assert!(matches!(error, Some(DocqError::Retrieve(RetrieveError::RerankFailed(_)))));
    assert!(!events.iter().any(|e| matches!(e, SearchEvent::Completed { .. })));
}

#[test]
fn fused_scores_are_sums_of_reciprocal_ranks() {
    let store = seeded(&[("a.txt", "consensus alpha")]);
    let hits = search(&store, "consensus", 5, None);
    assert_eq!(value(hits[0].score), 1.0_f32 / 61.0 + 1.0_f32 / 61.0);
}

#[test]
fn stage_times_add_up_in_the_statistics() {
    let store = seeded(&[("a.txt", "consensus alpha")]);
    let (events, _) = search_events(&store, "consensus", 5, None);
    let total = |wanted: SearchStage| -> u64 {
        events
            .iter()
            .filter_map(|e| match e {
                SearchEvent::StageFinished { stage, elapsed_ms } if *stage == wanted => {
                    Some(*elapsed_ms)
                }
                _ => None,
            })
            .sum()
    };
    let Some(SearchEvent::Completed { stats, .. }) = events.last() else {
        panic!("last event must be Completed");
    };
    let expected = SearchStats {
        total_ms: stats.total_ms,
        embed_ms: total(SearchStage::EmbedQuery),
        bm25_ms: total(SearchStage::Bm25Recall),
        vector_ms: total(SearchStage::VectorRecall),
        fusion_ms: total(SearchStage::Fusion),
        rerank_ms: total(SearchStage::Rerank),
    };
    assert_eq!(*stats, expected);
    assert!(stats.total_ms > 0);
}

// ---- asking ----

#[test]
fn test_ask_with_citations() {
    let store =
        seeded(&[("a.txt", "定价方案选坐席制"), ("b.txt", "访谈发现团队按人头预算")]);
    let (answer, _) = ask(&store, "定价方案", "选坐席制是因为 [1]，访谈发现 [2]。");
    assert!(!answer.text.is_empty());
    assert_eq!(answer.citations.len(), 2);
    assert_eq!(answer.citations[0].marker, "[1]");
    assert_eq!(answer.citations[1].marker, "[2]");
    assert_eq!(answer.citations[0].source, "/notes/a.txt (bytes 0-24)");
}

#[test]
fn test_ask_filters_invalid_citations() {
    let store = seeded(&[("a.txt", "content about pricing")]);
    let (answer, prompts) = ask(&store, "pricing", "Answer [1] and [3].");
    assert_eq!(answer.citations.len(), 1);
    assert_eq!(answer.citations[0].marker, "[1]");
    assert_eq!(prompts.len(), 1);
    assert!(prompts[0].contains("content about pricing"));
}

#[test]
fn test_ask_no_hits() {
    let store = Store::default();
    let (answer, prompts) = ask(&store, "nothing matches here", "should not be called");
    assert!(answer.text.is_empty());
    assert!(answer.citations.is_empty());
    assert!(prompts.is_empty());
}

#[test]
fn test_engine_ask() {
    let store = seeded(&[("note.txt", "定价方案选坐席制")]);
    let (answer, _) = ask(&store, "定价方案", "This is a stub answer [1].");
    assert!(!answer.text.is_empty());
}

#[test]
fn failures_end_an_answer() {
    let synth = Synthesizer::new(SynthesizerConfig { verbose: Verbose(true) });
    assert_eq!(synth.verbose(), Verbose(true));
    let (state, action) = synth.ask("q").next(AskInput::Start);
    assert!(matches!(action, AskAction::Search { query, top_k: 5 } if query == "q"));
    let failure = DocqError::Retrieve(RetrieveError::MutexPoisoned);
    let (state, action) = state.next(AskInput::Retrieved(Err(failure)));
    assert!(matches!(action, AskAction::Return(Err(DocqError::Retrieve(_)))));
    let (_, action) = state.next(AskInput::Start);
    assert!(matches!(action, AskAction::Stop));
}

#[test]
fn siblings_with_longer_names_are_kept() {
    let mut store = Store::default();
    store.files.insert("/data/notes/a.txt".into(), "first file".into());
    store.files.insert("/data/notes/b.txt".into(), "second file".into());
    store.files.insert("/data/notes2/a.txt".into(), "third file".into());
    index_directory(&mut store, "/data/notes", &mut Vec::new()).unwrap();
    index_directory(&mut store, "/data/notes2", &mut Vec::new()).unwrap();
    assert_eq!(store.documents.len(), 3);

    store.files.remove("/data/notes/a.txt");
    let stats = index_directory(&mut store, "/data/notes", &mut Vec::new()).unwrap();
    assert_eq!(stats.files_removed, 1);
    assert_eq!(store.documents.len(), 2);
    assert!(store.paths.values().any(|p| p == "/data/notes2/a.txt"));
}

#[test]
fn paths_lie_in_their_directories() {
    assert!(is_inside("/data/notes/a.txt", "/data/notes"));
    assert!(is_inside("/data/notes/a.txt", "/data/notes/"));
    assert!(is_inside("/data/a.txt", "/data/a.txt"));
    assert!(is_inside("/a.txt", "/"));
    assert!(is_inside("C:\\notes\\a.txt", "C:\\notes"));
    assert!(!is_inside("/data/notes2/a.txt", "/data/notes"));
    assert!(!is_inside("/data/notes.txt", "/data/notes"));
    assert!(!is_inside("/data/notes\\a.txt", "/data/notes"));
    assert!(!is_inside("/data", "/data/notes"));
}

#[test]
fn each_source_reports_its_own_chunks() {
    let mut store = Store::default();
    for name in ["1", "2", "3"] {
        store.files.insert(format!("/a/{name}.txt"), format!("a {name}"));
    }
    for name in ["1", "2"] {
        store.files.insert(format!("/b/{name}.txt"), format!("b {name}"));
    }
    let sources = vec![
        Source { id: "n1".into(), path: "/a".into() },
        Source { id: "n2".into(), path: "/b".into() },
    ];
    let events = index_sources(&mut store, sources);
    let reported: Vec<(String, usize)> = events
        .iter()
        .filter_map(|e| match e {
            IndexEvent::SourceComplete { source_id, chunks } => Some((source_id.clone(), *chunks)),
            _ => None,
        })
        .collect();
    assert_eq!(reported, vec![("n1".to_string(), 3), ("n2".to_string(), 2)]);
    assert_eq!(
        events.last(),
        Some(&IndexEvent::Complete { files: 5, chunks: 5, files_skipped: 0, files_removed: 0 })
    );
}

#[test]
fn a_second_run_changes_nothing() {
    let mut store = Store::default();
    for i in 0..7 {
        store.files.insert(format!("/d/{i}.txt"), format!("file {i}"));
    }
    store.files.insert("/d/blank.txt".into(), "  ".into());
    let first = index_directory(&mut store, "/d", &mut Vec::new()).unwrap();
    assert_eq!((first.files_indexed, first.files_skipped), (7, 1));
    let before: Vec<(String, Timestamp)> =
        store.documents.iter().map(|d| (d.id.clone(), d.indexed_at)).collect();

    let mut events = Vec::new();
    let second = index_directory(&mut store, "/d", &mut events).unwrap();
    assert_eq!(second, IndexStats { files_skipped: 8, ..IndexStats::default() });
    assert!(!events.iter().any(|e| matches!(e, IndexEvent::WritingStore)));
    let after: Vec<(String, Timestamp)> =
        store.documents.iter().map(|d| (d.id.clone(), d.indexed_at)).collect();
    assert_eq!(after, before);
}
