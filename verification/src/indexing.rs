//! The indexing pipelines, as state machines.
//!
//! Each machine decides what happens next; the caller performs it and hands
//! back what came of it. An input that a machine does not wait for ends it.

use vstd::prelude::*;

use crate::batch;
use crate::batch::{OpView, StoreOp};
use crate::error::{DocqError, Result};
use crate::hash;
use crate::indexer;
use crate::indexer::{DocumentIndex, IndexStats, PendingFile};
use crate::models::{Document, DocumentSource, IndexEvent, ModelSpec};
use crate::retriever;
use crate::retriever::DocumentPath;
use crate::text;

verus! {

// ---- writing a batch ----

/// Embedding and writing a batch of files.
pub enum Flush {
    Ready { files: Vec<PendingFile> },
    Announcing { files: Vec<PendingFile> },
    Embedding { files: Vec<PendingFile> },
    AnnouncingWrite { files: Vec<PendingFile>, embeddings: Vec<Vec<u32>> },
    Writing,
    Done,
}

/// What came of the last action of a [`Flush`].
pub enum FlushInput {
    Start,
    /// Whether the event went out; it did not where the consumer is gone.
    Sent(bool),
    Embedded(Result<Vec<Vec<u32>>>),
    Written(Result<()>),
}

/// How a batch ended.
pub enum Flushed {
    /// All files were written.
    Stored,
    /// The consumer is gone, and the files were not written.
    Left(Vec<PendingFile>),
}

/// What a [`Flush`] wants done.
pub enum FlushAction {
    Send(IndexEvent),
    /// Embed the texts.
    Embed(Vec<String>),
    /// Perform the operations in order, up to the first that fails.
    Write(Vec<StoreOp>),
    Return(Result<Flushed>),
    Stop,
}

/// The texts of all chunks of the files, in order.
pub open spec fn all_texts(files: Seq<PendingFile>) -> Seq<Seq<char>>
    decreases files.len(),
{
    if files.len() == 0 {
        Seq::empty()
    } else {
        all_texts(files.drop_last()) + text::views(files.last().chunk_texts@)
    }
}

fn collect_texts(files: &Vec<PendingFile>) -> (r: Vec<String>)
    ensures
        text::views(r@) == all_texts(files@),
{
    let mut out: Vec<String> = Vec::new();
    let mut i: usize = 0;
    assert(files@.take(0) =~= Seq::empty());
    assert(text::views(out@) =~= Seq::empty());
    while i < files.len()
        invariant
            i <= files@.len(),
            text::views(out@) == all_texts(files@.take(i as int)),
        decreases files@.len() - i,
    {
        let texts = &files[i].chunk_texts;
        let ghost before = text::views(out@);
        let mut k: usize = 0;
        assert(before + text::views(texts@).take(0) =~= before);
        while k < texts.len()
            invariant
                k <= texts@.len(),
                text::views(out@) == before + text::views(texts@).take(k as int),
            decreases texts@.len() - k,
        {
            let ghost now = text::views(out@);
            out.push(texts[k].clone());
            assert(text::views(out@) =~= now.push(texts@[k as int]@));
            assert(text::views(out@) =~= before + text::views(texts@).take(k + 1));
            k += 1;
        }
        assert(text::views(texts@).take(k as int) =~= text::views(texts@));
        assert(files@.take(i + 1).drop_last() =~= files@.take(i as int));
        assert(files@.take(i + 1).last() == files@[i as int]);
        i += 1;
    }
    assert(files@.take(i as int) =~= files@);
    out
}

/// The inputs that a [`Flush`] can go on with: embeddings are enough for all
/// chunks.
pub open spec fn flush_accepts(state: Flush, input: FlushInput) -> bool {
    match (state, input) {
        (Flush::Embedding { files }, FlushInput::Embedded(Ok(embeddings))) => batch::chunk_offset(
            files@,
            files@.len() as int,
        ) <= embeddings@.len(),
        (Flush::AnnouncingWrite { files, embeddings }, _) => batch::chunk_offset(
            files@,
            files@.len() as int,
        ) <= embeddings@.len(),
        _ => true,
    }
}

/// The state and the action of a [`Flush`] after `input`.
pub open spec fn flush_steps(
    before: Flush,
    input: FlushInput,
    after: Flush,
    action: FlushAction,
) -> bool {
    match (before, input) {
        (Flush::Ready { files }, FlushInput::Start) => {
            &&& after == (Flush::Announcing { files })
            &&& action matches FlushAction::Send(IndexEvent::EmbeddingBatch { count })
            &&& count == all_texts(files@).len()
        },
        (Flush::Announcing { files }, FlushInput::Sent(true)) => {
            &&& after == (Flush::Embedding { files })
            &&& action matches FlushAction::Embed(texts)
            &&& text::views(texts@) == all_texts(files@)
        },
        (Flush::Announcing { files }, FlushInput::Sent(false)) => {
            &&& after == Flush::Done
            &&& action == FlushAction::Return(Ok(Flushed::Left(files)))
        },
        (Flush::Embedding { files }, FlushInput::Embedded(Ok(embeddings))) => {
            &&& after == (Flush::AnnouncingWrite { files, embeddings })
            &&& action == FlushAction::Send(IndexEvent::WritingStore)
        },
        (Flush::Embedding { .. }, FlushInput::Embedded(Err(e))) => {
            &&& after == Flush::Done
            &&& action == FlushAction::Return(Err(e))
        },
        (Flush::AnnouncingWrite { files, embeddings }, FlushInput::Sent(true)) => {
            &&& after == Flush::Writing
            &&& action matches FlushAction::Write(ops)
            &&& batch::op_views(ops@) == batch::batch_ops(files@, batch::vectors(embeddings@))
        },
        (Flush::AnnouncingWrite { files, .. }, FlushInput::Sent(false)) => {
            &&& after == Flush::Done
            &&& action == FlushAction::Return(Ok(Flushed::Left(files)))
        },
        (Flush::Writing, FlushInput::Written(Ok(_))) => {
            &&& after == Flush::Done
            &&& action == FlushAction::Return(Ok(Flushed::Stored))
        },
        (Flush::Writing, FlushInput::Written(Err(e))) => {
            &&& after == Flush::Done
            &&& action == FlushAction::Return(Err(e))
        },
        _ => after == Flush::Done && action == FlushAction::Stop,
    }
}

impl Flush {
    /// Takes the next step.
    pub fn next(self, input: FlushInput) -> (r: (Flush, FlushAction))
        requires
            flush_accepts(self, input),
        ensures
            flush_steps(self, input, r.0, r.1),
    {
        match (self, input) {
            (Flush::Ready { files }, FlushInput::Start) => {
                let count: usize = collect_texts(&files).len();
                (
                    Flush::Announcing { files },
                    FlushAction::Send(IndexEvent::EmbeddingBatch { count }),
                )
            },
            (Flush::Announcing { files }, FlushInput::Sent(sent)) => {
                if sent {
                    let texts = collect_texts(&files);
                    (Flush::Embedding { files }, FlushAction::Embed(texts))
                } else {
                    (Flush::Done, FlushAction::Return(Ok(Flushed::Left(files))))
                }
            },
            (Flush::Embedding { files }, FlushInput::Embedded(embedded)) => match embedded {
                Ok(embeddings) => (
                    Flush::AnnouncingWrite { files, embeddings },
                    FlushAction::Send(IndexEvent::WritingStore),
                ),
                Err(e) => (Flush::Done, FlushAction::Return(Err(e))),
            },
            (Flush::AnnouncingWrite { files, embeddings }, FlushInput::Sent(sent)) => {
                if sent {
                    let ops = batch::plan_writes(files, &embeddings);
                    (Flush::Writing, FlushAction::Write(ops))
                } else {
                    (Flush::Done, FlushAction::Return(Ok(Flushed::Left(files))))
                }
            },
            (Flush::Writing, FlushInput::Written(written)) => match written {
                Ok(_) => (Flush::Done, FlushAction::Return(Ok(Flushed::Stored))),
                Err(e) => (Flush::Done, FlushAction::Return(Err(e))),
            },
            _ => (Flush::Done, FlushAction::Stop),
        }
    }
}

// ---- counting ----

/// `a + b`, or the largest count there is.
pub open spec fn capped_sum(a: usize, b: int) -> usize {
    if a + b <= usize::MAX {
        (a + b) as usize
    } else {
        usize::MAX
    }
}

fn plus(a: usize, b: usize) -> (r: usize)
    ensures
        r == capped_sum(a, b as int),
{
    if b <= usize::MAX - a {
        a + b
    } else {
        usize::MAX
    }
}

/// `a - b - c`, or zero.
pub open spec fn floored_rest(a: usize, b: usize, c: int) -> usize {
    if b + c <= a {
        (a - b - c) as usize
    } else {
        0
    }
}

/// The chunks of the given files.
pub open spec fn chunk_count(files: Seq<PendingFile>) -> nat {
    batch::chunk_offset(files, files.len() as int)
}

/// The counts after a batch of files has been stored.
pub open spec fn with_stored(stats: IndexStats, files: int, chunks: int) -> IndexStats {
    IndexStats {
        files_indexed: capped_sum(stats.files_indexed, files),
        chunks_indexed: capped_sum(stats.chunks_indexed, chunks),
        ..stats
    }
}

/// The counts as the final event of an index run.
pub open spec fn completion(stats: IndexStats) -> IndexEvent {
    IndexEvent::Complete {
        files: stats.files_indexed,
        chunks: stats.chunks_indexed,
        files_skipped: stats.files_skipped,
        files_removed: stats.files_removed,
    }
}

fn complete(stats: IndexStats) -> (r: IndexEvent)
    ensures
        r == completion(stats),
{
    IndexEvent::Complete {
        files: stats.files_indexed,
        chunks: stats.chunks_indexed,
        files_skipped: stats.files_skipped,
        files_removed: stats.files_removed,
    }
}

/// Whether `event` says that the file was parsed.
pub open spec fn says_parsed(event: IndexEvent, file: PendingFile) -> bool {
    &&& event matches IndexEvent::FileParsed { source_id, path, chunks }
    &&& source_id@ == file.path@
    &&& path@ == file.path@
    &&& chunks == file.chunks@.len()
}

fn parsed(file: &PendingFile) -> (r: IndexEvent)
    ensures
        says_parsed(r, *file),
{
    IndexEvent::FileParsed {
        source_id: file.path.clone(),
        path: file.path.clone(),
        chunks: file.chunks.len(),
    }
}

/// The number of chunks of the given files, or the largest count there is.
fn count_chunks(files: &Vec<PendingFile>) -> (r: usize)
    ensures
        r == capped_sum(0, chunk_count(files@) as int),
{
    let mut n: usize = 0;
    let mut i: usize = 0;
    while i < files.len()
        invariant
            i <= files@.len(),
            n == capped_sum(0, batch::chunk_offset(files@, i as int) as int),
        decreases files@.len() - i,
    {
        n = plus(n, files[i].chunks.len());
        i += 1;
    }
    n
}

// ---- a directory ----

/// What an index is built with.
#[derive(Debug)]
pub struct IndexSettings {
    pub embedding_spec: ModelSpec,
    pub chunk_size: usize,
    pub chunk_overlap: usize,
}

/// What a directory run carries along once the files are prepared. `todo` holds
/// the files that are still to be announced, the next one last.
pub struct Progress {
    pub settings: IndexSettings,
    pub force: bool,
    pub total: usize,
    pub stats: IndexStats,
    pub todo: Vec<PendingFile>,
    pub pending: Vec<PendingFile>,
    pub pending_chunks: usize,
}

/// Indexing a directory. The variants say what the run waits for.
pub enum DirectoryIndexing {
    Ready { dir: String, settings: IndexSettings },
    ListingFiles { dir: String, settings: IndexSettings },
    AnnouncingScan { dir: String, settings: IndexSettings, files: Vec<String> },
    ListingDocuments { dir: String, settings: IndexSettings, files: Vec<String> },
    FetchingPaths {
        dir: String,
        settings: IndexSettings,
        files: Vec<String>,
        docs: Vec<Document>,
    },
    /// Waits for the removal of the document `gone[removed]`.
    Sweeping {
        settings: IndexSettings,
        files: Vec<String>,
        docs: Vec<Document>,
        gone: Vec<String>,
        removed: usize,
    },
    CheckingModel {
        settings: IndexSettings,
        files: Vec<String>,
        docs: Vec<Document>,
        removed: usize,
    },
    CheckingMeta {
        settings: IndexSettings,
        files: Vec<String>,
        docs: Vec<Document>,
        removed: usize,
    },
    Preparing { settings: IndexSettings, total: usize, removed: usize, force: bool },
    /// Waits for the announcement of `file`.
    AnnouncingFile { progress: Progress, file: PendingFile },
    /// Waits for a batch of so many files and chunks.
    Flushing { progress: Progress, count: usize, chunks: usize },
    /// Waits for the last batch.
    FlushingRest { progress: Progress, count: usize, chunks: usize },
    UpdatingMeta { stats: IndexStats },
    Completing { stats: IndexStats },
    Done,
}

/// What came of the last action of a directory run.
pub enum DirectoryInput {
    Start,
    Sent(bool),
    Files(Result<Vec<String>>),
    Documents(Result<Vec<Document>>),
    Paths(Result<Vec<DocumentPath>>),
    Removed(Result<()>),
    Model(Result<Option<ModelSpec>>),
    Meta(Result<Option<String>>),
    /// One entry for each file, in order; `None` for a file that is left out.
    Prepared(Result<Vec<Option<PendingFile>>>),
    Flushed(Result<Flushed>),
    Updated(Result<()>),
}

/// What a directory run wants done.
pub enum DirectoryAction {
    Send(IndexEvent),
    /// List the files under the directory that can be read.
    ListFiles { dir: String },
    ListDocuments,
    FetchPaths(Vec<String>),
    /// Remove a document and its chunks from the store, in one transaction.
    Remove { doc_id: String },
    GetModel,
    GetMeta,
    /// Read and prepare the files.
    Prepare { files: Vec<String>, existing: DocumentIndex, force: bool },
    Flush(Vec<PendingFile>),
    /// Remember the model and the chunking of the index.
    UpdateMeta { spec: ModelSpec, mark: String },
    Return(Result<IndexStats>),
    Stop,
}

pub open spec fn ids_of_paths(files: Seq<String>) -> Seq<Seq<char>> {
    files.map_values(|p: String| hash::text_id(p@))
}

pub open spec fn ids_of_documents(docs: Seq<Document>) -> Seq<Seq<char>> {
    docs.map_values(|d: Document| d.id@)
}

/// The files that were prepared, without those that were left out.
pub open spec fn kept(prepared: Seq<Option<PendingFile>>) -> Seq<PendingFile>
    decreases prepared.len(),
{
    if prepared.len() == 0 {
        Seq::empty()
    } else {
        match prepared.last() {
            Some(file) => kept(prepared.drop_last()).push(file),
            None => kept(prepared.drop_last()),
        }
    }
}

/// Ends a directory run with a result.
pub open spec fn dir_returns(
    after: DirectoryIndexing,
    action: DirectoryAction,
    r: Result<IndexStats>,
) -> bool {
    after == DirectoryIndexing::Done && action == DirectoryAction::Return(r)
}

pub open spec fn dir_stops(after: DirectoryIndexing, action: DirectoryAction) -> bool {
    after == DirectoryIndexing::Done && action == DirectoryAction::Stop
}

/// Removes the next document, or goes on where none is left.
pub open spec fn sweep_goes_on(
    settings: IndexSettings,
    files: Vec<String>,
    docs: Vec<Document>,
    gone: Seq<Seq<char>>,
    removed: int,
    after: DirectoryIndexing,
    action: DirectoryAction,
) -> bool {
    if removed < gone.len() {
        &&& after matches DirectoryIndexing::Sweeping {
            settings: s,
            files: f,
            docs: d,
            gone: g,
            removed: n,
        }
        &&& s == settings
        &&& f == files
        &&& d == docs
        &&& text::views(g@) == gone
        &&& n == removed
        &&& action matches DirectoryAction::Remove { doc_id }
        &&& doc_id@ == gone[removed]
    } else {
        &&& after matches DirectoryIndexing::CheckingModel {
            settings: s,
            files: f,
            docs: d,
            removed: n,
        }
        &&& s == settings
        &&& f == files
        &&& d == docs
        &&& n == removed
        &&& action == DirectoryAction::GetModel
    }
}

/// Has the files prepared.
pub open spec fn preparation(
    settings: IndexSettings,
    files: Vec<String>,
    docs: Vec<Document>,
    removed: usize,
    force: bool,
    after: DirectoryIndexing,
    action: DirectoryAction,
) -> bool {
    &&& after matches DirectoryIndexing::Preparing { settings: s, total, removed: n, force: f }
    &&& s == settings
    &&& total == files@.len()
    &&& n == removed
    &&& f == force
    &&& action matches DirectoryAction::Prepare { files: asked, existing, force: g }
    &&& asked == files
    &&& existing@ == indexer::document_map(docs@)
    &&& g == force
}

/// After the last file was announced: what is pending is written, then the
/// index is marked where it was rebuilt, then the run completes.
pub open spec fn rest_goes_on(
    progress: Progress,
    after: DirectoryIndexing,
    action: DirectoryAction,
) -> bool {
    let skipped = floored_rest(
        progress.total,
        progress.stats.files_indexed,
        progress.pending@.len() as int,
    );
    let stats = IndexStats { files_skipped: skipped, ..progress.stats };
    if progress.pending@.len() > 0 {
        &&& after matches DirectoryIndexing::FlushingRest { progress: p, count: files, chunks }
        &&& p.settings == progress.settings
        &&& p.force == progress.force
        &&& p.stats == stats
        &&& files == progress.pending@.len()
        &&& chunks == capped_sum(0, chunk_count(progress.pending@) as int)
        &&& action == DirectoryAction::Flush(progress.pending)
    } else {
        finish_goes_on(progress.settings, progress.force, stats, after, action)
    }
}

/// Marks the index where it was rebuilt, or completes the run.
pub open spec fn finish_goes_on(
    settings: IndexSettings,
    force: bool,
    stats: IndexStats,
    after: DirectoryIndexing,
    action: DirectoryAction,
) -> bool {
    if force {
        &&& after == (DirectoryIndexing::UpdatingMeta { stats })
        &&& action matches DirectoryAction::UpdateMeta { spec, mark }
        &&& spec == settings.embedding_spec
        &&& mark@ == indexer::indexing_mark(settings.chunk_size, settings.chunk_overlap)
    } else {
        &&& after == (DirectoryIndexing::Completing { stats })
        &&& action == DirectoryAction::Send(completion(stats))
    }
}

/// Announces the next file, or goes on where none is left.
pub open spec fn files_go_on(
    progress: Progress,
    after: DirectoryIndexing,
    action: DirectoryAction,
) -> bool {
    if progress.todo@.len() > 0 {
        &&& after matches DirectoryIndexing::AnnouncingFile { progress: p, file }
        &&& p.settings == progress.settings
        &&& p.force == progress.force
        &&& p.total == progress.total
        &&& p.stats == progress.stats
        &&& p.todo@ == progress.todo@.drop_last()
        &&& p.pending == progress.pending
        &&& p.pending_chunks == progress.pending_chunks
        &&& file == progress.todo@.last()
        &&& action matches DirectoryAction::Send(event)
        &&& says_parsed(event, file)
    } else {
        rest_goes_on(progress, after, action)
    }
}

/// Whether so many chunks make a batch.
pub open spec fn is_batch(pending_chunks: usize, file: PendingFile) -> bool {
    pending_chunks + file.chunks@.len() >= batch::EMBED_BATCH_SIZE
}

/// Whether the fields of a [`Progress`] that do not change are the same.
pub open spec fn same_run(a: Progress, b: Progress) -> bool {
    &&& a.settings == b.settings
    &&& a.force == b.force
    &&& a.total == b.total
    &&& a.todo == b.todo
}

/// After a file was announced: it joins the batch, which is written once it
/// has enough chunks.
pub open spec fn batch_goes_on(
    progress: Progress,
    file: PendingFile,
    after: DirectoryIndexing,
    action: DirectoryAction,
) -> bool {
    let files = progress.pending@.push(file);
    if is_batch(progress.pending_chunks, file) {
        &&& after matches DirectoryIndexing::Flushing { progress: p, count: n, chunks }
        &&& same_run(p, progress)
        &&& p.stats == progress.stats
        &&& n == files.len()
        &&& chunks == capped_sum(0, chunk_count(files) as int)
        &&& action matches DirectoryAction::Flush(batch)
        &&& batch@ == files
    } else {
        exists|p: Progress|
            {
                &&& same_run(p, progress)
                &&& p.stats == progress.stats
                &&& p.pending@ == files
                &&& p.pending_chunks == progress.pending_chunks + file.chunks@.len()
                &&& #[trigger] files_go_on(p, after, action)
            }
    }
}

/// After a batch: what was stored is counted, what was left stays pending.
pub open spec fn counted(
    progress: Progress,
    files: usize,
    chunks: usize,
    flushed: Flushed,
    p: Progress,
) -> bool {
    &&& same_run(p, progress)
    &&& p.pending_chunks == 0
    &&& match flushed {
        Flushed::Stored => p.stats == with_stored(progress.stats, files as int, chunks as int)
            && p.pending@.len() == 0,
        Flushed::Left(left) => p.stats == progress.stats && p.pending == left,
    }
}

/// The state and the action of a directory run after `input`.
pub open spec fn directory_steps(
    before: DirectoryIndexing,
    input: DirectoryInput,
    after: DirectoryIndexing,
    action: DirectoryAction,
) -> bool {
    match (before, input) {
        (DirectoryIndexing::Ready { dir, settings }, DirectoryInput::Start) => {
            &&& after == (DirectoryIndexing::ListingFiles { dir, settings })
            &&& action matches DirectoryAction::ListFiles { dir: d }
            &&& d@ == dir@
        },
        (DirectoryIndexing::ListingFiles { dir, settings }, DirectoryInput::Files(Ok(files))) => {
            &&& after == (DirectoryIndexing::AnnouncingScan { dir, settings, files })
            &&& action matches DirectoryAction::Send(IndexEvent::ScanStart { total_sources })
            &&& total_sources == files@.len()
        },
        (
            DirectoryIndexing::AnnouncingScan { dir, settings, files },
            DirectoryInput::Sent(true),
        ) => {
            &&& after == (DirectoryIndexing::ListingDocuments { dir, settings, files })
            &&& action == DirectoryAction::ListDocuments
        },
        (DirectoryIndexing::AnnouncingScan { .. }, DirectoryInput::Sent(false)) => dir_returns(
            after,
            action,
            Ok(indexer::nothing_indexed()),
        ),
        (
            DirectoryIndexing::ListingDocuments { dir, settings, files },
            DirectoryInput::Documents(Ok(docs)),
        ) => {
            if docs@.len() == 0 {
                sweep_goes_on(settings, files, docs, Seq::empty(), 0, after, action)
            } else {
                &&& after == (DirectoryIndexing::FetchingPaths { dir, settings, files, docs })
                &&& action matches DirectoryAction::FetchPaths(ids)
                &&& text::views(ids@) == ids_of_documents(docs@)
            }
        },
        (
            DirectoryIndexing::FetchingPaths { dir, settings, files, docs },
            DirectoryInput::Paths(Ok(paths)),
        ) => sweep_goes_on(
            settings,
            files,
            docs,
            indexer::gone_documents(
                docs@,
                ids_of_paths(files@),
                retriever::path_map(paths@),
                dir@,
            ),
            0,
            after,
            action,
        ),
        (
            DirectoryIndexing::Sweeping { settings, files, docs, gone, removed },
            DirectoryInput::Removed(Ok(_)),
        ) => {
            if removed < gone@.len() {
                sweep_goes_on(
                    settings,
                    files,
                    docs,
                    text::views(gone@),
                    removed + 1,
                    after,
                    action,
                )
            } else {
                dir_stops(after, action)
            }
        },
        (
            DirectoryIndexing::CheckingModel { settings, files, docs, removed },
            DirectoryInput::Model(Ok(stored)),
        ) => {
            if indexer::is_other_model(stored, settings.embedding_spec) {
                preparation(settings, files, docs, removed, true, after, action)
            } else {
                &&& after == (DirectoryIndexing::CheckingMeta { settings, files, docs, removed })
                &&& action == DirectoryAction::GetMeta
            }
        },
        (
            DirectoryIndexing::CheckingMeta { settings, files, docs, removed },
            DirectoryInput::Meta(Ok(stored)),
        ) => preparation(
            settings,
            files,
            docs,
            removed,
            indexer::is_other_chunking(stored, settings.chunk_size, settings.chunk_overlap),
            after,
            action,
        ),
        (
            DirectoryIndexing::Preparing { settings, total, removed, force },
            DirectoryInput::Prepared(Ok(prepared)),
        ) => exists|p: Progress|
            {
                &&& p.settings == settings
                &&& p.force == force
                &&& p.total == total
                &&& p.stats == (IndexStats { files_removed: removed, ..indexer::nothing_indexed() })
                &&& p.todo@ == kept(prepared@).reverse()
                &&& p.pending@.len() == 0
                &&& p.pending_chunks == 0
                &&& #[trigger] files_go_on(p, after, action)
            },
        (
            DirectoryIndexing::AnnouncingFile { progress, file },
            DirectoryInput::Sent(true),
        ) => batch_goes_on(progress, file, after, action),
        (
            DirectoryIndexing::AnnouncingFile { progress, .. },
            DirectoryInput::Sent(false),
        ) => dir_returns(after, action, Ok(progress.stats)),
        (
            DirectoryIndexing::Flushing { progress, count: files, chunks },
            DirectoryInput::Flushed(Ok(flushed)),
        ) => exists|p: Progress|
            counted(progress, files, chunks, flushed, p) && #[trigger] files_go_on(
                p,
                after,
                action,
            ),
        (
            DirectoryIndexing::FlushingRest { progress, count: files, chunks },
            DirectoryInput::Flushed(Ok(flushed)),
        ) => {
            let stats = match flushed {
                Flushed::Stored => with_stored(progress.stats, files as int, chunks as int),
                Flushed::Left(_) => progress.stats,
            };
            finish_goes_on(progress.settings, progress.force, stats, after, action)
        },
        (DirectoryIndexing::UpdatingMeta { stats }, DirectoryInput::Updated(Ok(_))) => {
            &&& after == (DirectoryIndexing::Completing { stats })
            &&& action == DirectoryAction::Send(completion(stats))
        },
        (DirectoryIndexing::Completing { stats }, DirectoryInput::Sent(_)) => dir_returns(
            after,
            action,
            Ok(stats),
        ),
        (DirectoryIndexing::ListingFiles { .. }, DirectoryInput::Files(Err(e))) => dir_returns(
            after,
            action,
            Err(e),
        ),
        (DirectoryIndexing::ListingDocuments { .. }, DirectoryInput::Documents(Err(e))) => dir_returns(
            after,
            action,
            Err(e),
        ),
        (DirectoryIndexing::FetchingPaths { .. }, DirectoryInput::Paths(Err(e))) => dir_returns(
            after,
            action,
            Err(e),
        ),
        (DirectoryIndexing::Sweeping { .. }, DirectoryInput::Removed(Err(e))) => dir_returns(
            after,
            action,
            Err(e),
        ),
        (DirectoryIndexing::CheckingModel { .. }, DirectoryInput::Model(Err(e))) => dir_returns(
            after,
            action,
            Err(e),
        ),
        (DirectoryIndexing::CheckingMeta { .. }, DirectoryInput::Meta(Err(e))) => dir_returns(
            after,
            action,
            Err(e),
        ),
        (DirectoryIndexing::Preparing { .. }, DirectoryInput::Prepared(Err(e))) => dir_returns(
            after,
            action,
            Err(e),
        ),
        (DirectoryIndexing::Flushing { .. }, DirectoryInput::Flushed(Err(e))) => dir_returns(
            after,
            action,
            Err(e),
        ),
        (DirectoryIndexing::FlushingRest { .. }, DirectoryInput::Flushed(Err(e))) => dir_returns(
            after,
            action,
            Err(e),
        ),
        (DirectoryIndexing::UpdatingMeta { .. }, DirectoryInput::Updated(Err(e))) => dir_returns(
            after,
            action,
            Err(e),
        ),
        _ => dir_stops(after, action),
    }
}

fn hash_paths(files: &Vec<String>) -> (r: Vec<String>)
    ensures
        text::views(r@) == ids_of_paths(files@),
{
    let mut out: Vec<String> = Vec::new();
    let mut i: usize = 0;
    while i < files.len()
        invariant
            i <= files@.len(),
            text::views(out@) == ids_of_paths(files@).take(i as int),
        decreases files@.len() - i,
    {
        let ghost before = text::views(out@);
        out.push(hash::sha256_hex(files[i].as_str()));
        assert(text::views(out@) =~= before.push(hash::text_id(files@[i as int]@)));
        assert(text::views(out@) =~= ids_of_paths(files@).take(i + 1));
        i += 1;
    }
    assert(text::views(out@) =~= ids_of_paths(files@));
    out
}

fn document_ids(docs: &Vec<Document>) -> (r: Vec<String>)
    ensures
        text::views(r@) == ids_of_documents(docs@),
{
    let mut out: Vec<String> = Vec::new();
    let mut i: usize = 0;
    while i < docs.len()
        invariant
            i <= docs@.len(),
            text::views(out@) == ids_of_documents(docs@).take(i as int),
        decreases docs@.len() - i,
    {
        let ghost before = text::views(out@);
        out.push(docs[i].id.clone());
        assert(text::views(out@) =~= before.push(docs@[i as int].id@));
        assert(text::views(out@) =~= ids_of_documents(docs@).take(i + 1));
        i += 1;
    }
    assert(text::views(out@) =~= ids_of_documents(docs@));
    out
}

/// The files that were prepared, the first one last.
fn keep_reversed(prepared: Vec<Option<PendingFile>>) -> (r: Vec<PendingFile>)
    ensures
        r@ == kept(prepared@).reverse(),
{
    let mut rest = prepared;
    let mut out: Vec<PendingFile> = Vec::new();
    let ghost all = prepared@;
    assert(kept(all).reverse() =~= out@ + kept(rest@).reverse());
    while rest.len() > 0
        invariant
            kept(all).reverse() == out@ + kept(rest@).reverse(),
        decreases rest@.len(),
    {
        let ghost before = rest@;
        match rest.pop() {
            Some(entry) => {
                assert(rest@ =~= before.drop_last());
                match entry {
                    Some(file) => {
                        let ghost had = out@;
                        out.push(file);
                        assert(had + kept(before).reverse() =~= out@ + kept(rest@).reverse());
                    },
                    None => {},
                }
            },
            None => {},
        }
    }
    assert(out@ =~= kept(all).reverse());
    out
}

fn go_on_sweeping(
    settings: IndexSettings,
    files: Vec<String>,
    docs: Vec<Document>,
    gone: Vec<String>,
    removed: usize,
) -> (r: (DirectoryIndexing, DirectoryAction))
    requires
        removed <= gone@.len(),
    ensures
        sweep_goes_on(
            settings,
            files,
            docs,
            text::views(gone@),
            removed as int,
            r.0,
            r.1,
        ),
{
    if removed < gone.len() {
        let doc_id = gone[removed].clone();
        (
            DirectoryIndexing::Sweeping { settings, files, docs, gone, removed },
            DirectoryAction::Remove { doc_id },
        )
    } else {
        (
            DirectoryIndexing::CheckingModel { settings, files, docs, removed },
            DirectoryAction::GetModel,
        )
    }
}

fn go_on_preparing(
    settings: IndexSettings,
    files: Vec<String>,
    docs: Vec<Document>,
    removed: usize,
    force: bool,
) -> (r: (DirectoryIndexing, DirectoryAction))
    ensures
        preparation(settings, files, docs, removed, force, r.0, r.1),
{
    let total: usize = files.len();
    let existing = DocumentIndex::new(docs);
    (
        DirectoryIndexing::Preparing { settings, total, removed, force },
        DirectoryAction::Prepare { files, existing, force },
    )
}

fn go_on_finishing(settings: IndexSettings, force: bool, stats: IndexStats) -> (r: (
    DirectoryIndexing,
    DirectoryAction,
))
    ensures
        finish_goes_on(settings, force, stats, r.0, r.1),
{
    if force {
        let mark = indexer::index_meta(settings.chunk_size, settings.chunk_overlap);
        (
            DirectoryIndexing::UpdatingMeta { stats },
            DirectoryAction::UpdateMeta { spec: settings.embedding_spec, mark },
        )
    } else {
        (DirectoryIndexing::Completing { stats }, DirectoryAction::Send(complete(stats)))
    }
}

fn go_on_with_files(progress: Progress) -> (r: (DirectoryIndexing, DirectoryAction))
    ensures
        files_go_on(progress, r.0, r.1),
{
    let Progress { settings, force, total, stats, mut todo, pending, pending_chunks } = progress;
    match todo.pop() {
        Some(file) => {
            assert(todo@ =~= progress.todo@.drop_last());
            let event = parsed(&file);
            let progress = Progress {
                settings,
                force,
                total,
                stats,
                todo,
                pending,
                pending_chunks,
            };
            (
                DirectoryIndexing::AnnouncingFile { progress, file },
                DirectoryAction::Send(event),
            )
        },
        None => {
            let files: usize = pending.len();
            let skipped: usize = if stats.files_indexed <= total && files <= total
                - stats.files_indexed {
                total - stats.files_indexed - files
            } else {
                0
            };
            let stats = IndexStats { files_skipped: skipped, ..stats };
            if files > 0 {
                let chunks: usize = count_chunks(&pending);
                let progress = Progress {
                    settings,
                    force,
                    total,
                    stats,
                    todo,
                    pending: Vec::new(),
                    pending_chunks,
                };
                (
                    DirectoryIndexing::FlushingRest { progress, count: files, chunks },
                    DirectoryAction::Flush(pending),
                )
            } else {
                go_on_finishing(settings, force, stats)
            }
        },
    }
}

fn go_on_batching(progress: Progress, file: PendingFile) -> (r: (
    DirectoryIndexing,
    DirectoryAction,
))
    ensures
        batch_goes_on(progress, file, r.0, r.1),
{
    let n: usize = file.chunks.len();
    let Progress { settings, force, total, stats, todo, mut pending, pending_chunks } = progress;
    let full: bool = pending_chunks >= batch::EMBED_BATCH_SIZE || n >= batch::EMBED_BATCH_SIZE
        - pending_chunks;
    pending.push(file);
    if full {
        let files: usize = pending.len();
        let chunks: usize = count_chunks(&pending);
        let progress = Progress {
            settings,
            force,
            total,
            stats,
            todo,
            pending: Vec::new(),
            pending_chunks: 0,
        };
        (
            DirectoryIndexing::Flushing { progress, count: files, chunks },
            DirectoryAction::Flush(pending),
        )
    } else {
        go_on_with_files(
            Progress {
                settings,
                force,
                total,
                stats,
                todo,
                pending,
                pending_chunks: pending_chunks + n,
            },
        )
    }
}

fn count_flushed(progress: Progress, files: usize, chunks: usize, flushed: Flushed) -> (r: Progress)
    ensures
        counted(progress, files, chunks, flushed, r),
{
    let Progress { settings, force, total, stats, todo, .. } = progress;
    match flushed {
        Flushed::Stored => {
            let stats = IndexStats {
                files_indexed: plus(stats.files_indexed, files),
                chunks_indexed: plus(stats.chunks_indexed, chunks),
                ..stats
            };
            Progress {
                settings,
                force,
                total,
                stats,
                todo,
                pending: Vec::new(),
                pending_chunks: 0,
            }
        },
        Flushed::Left(left) => Progress {
            settings,
            force,
            total,
            stats,
            todo,
            pending: left,
            pending_chunks: 0,
        },
    }
}

impl DirectoryIndexing {
    /// Takes the next step.
    pub fn next(self, input: DirectoryInput) -> (r: (DirectoryIndexing, DirectoryAction))
        ensures
            directory_steps(self, input, r.0, r.1),
    {
        match (self, input) {
            (DirectoryIndexing::Ready { dir, settings }, DirectoryInput::Start) => {
                let asked = dir.clone();
                (
                    DirectoryIndexing::ListingFiles { dir, settings },
                    DirectoryAction::ListFiles { dir: asked },
                )
            },
            (DirectoryIndexing::ListingFiles { dir, settings }, DirectoryInput::Files(found)) => match found {
                Ok(files) => {
                    let total_sources: usize = files.len();
                    (
                        DirectoryIndexing::AnnouncingScan { dir, settings, files },
                        DirectoryAction::Send(IndexEvent::ScanStart { total_sources }),
                    )
                },
                Err(e) => (DirectoryIndexing::Done, DirectoryAction::Return(Err(e))),
            },
            (
                DirectoryIndexing::AnnouncingScan { dir, settings, files },
                DirectoryInput::Sent(sent),
            ) => {
                if sent {
                    (
                        DirectoryIndexing::ListingDocuments { dir, settings, files },
                        DirectoryAction::ListDocuments,
                    )
                } else {
                    (
                        DirectoryIndexing::Done,
                        DirectoryAction::Return(Ok(IndexStats::default())),
                    )
                }
            },
            (
                DirectoryIndexing::ListingDocuments { dir, settings, files },
                DirectoryInput::Documents(found),
            ) => match found {
                Ok(docs) => {
                    if docs.len() == 0 {
                        let gone: Vec<String> = Vec::new();
                        assert(text::views(gone@) =~= Seq::empty());
                        go_on_sweeping(settings, files, docs, gone, 0)
                    } else {
                        let ids = document_ids(&docs);
                        (
                            DirectoryIndexing::FetchingPaths { dir, settings, files, docs },
                            DirectoryAction::FetchPaths(ids),
                        )
                    }
                },
                Err(e) => (DirectoryIndexing::Done, DirectoryAction::Return(Err(e))),
            },
            (
                DirectoryIndexing::FetchingPaths { dir, settings, files, docs },
                DirectoryInput::Paths(found),
            ) => match found {
                Ok(paths) => {
                    let current = hash_paths(&files);
                    let gone = indexer::find_gone(&docs, &current, &paths, dir.as_str());
                    go_on_sweeping(settings, files, docs, gone, 0)
                },
                Err(e) => (DirectoryIndexing::Done, DirectoryAction::Return(Err(e))),
            },
            (
                DirectoryIndexing::Sweeping { settings, files, docs, gone, removed },
                DirectoryInput::Removed(result),
            ) => match result {
                Ok(_) => {
                    if removed < gone.len() {
                        go_on_sweeping(settings, files, docs, gone, removed + 1)
                    } else {
                        (DirectoryIndexing::Done, DirectoryAction::Stop)
                    }
                },
                Err(e) => (DirectoryIndexing::Done, DirectoryAction::Return(Err(e))),
            },
            (
                DirectoryIndexing::CheckingModel { settings, files, docs, removed },
                DirectoryInput::Model(found),
            ) => match found {
                Ok(stored) => {
                    if indexer::model_changed(&stored, &settings.embedding_spec) {
                        go_on_preparing(settings, files, docs, removed, true)
                    } else {
                        (
                            DirectoryIndexing::CheckingMeta { settings, files, docs, removed },
                            DirectoryAction::GetMeta,
                        )
                    }
                },
                Err(e) => (DirectoryIndexing::Done, DirectoryAction::Return(Err(e))),
            },
            (
                DirectoryIndexing::CheckingMeta { settings, files, docs, removed },
                DirectoryInput::Meta(found),
            ) => match found {
                Ok(stored) => {
                    let force: bool = indexer::chunking_changed(
                        &stored,
                        settings.chunk_size,
                        settings.chunk_overlap,
                    );
                    go_on_preparing(settings, files, docs, removed, force)
                },
                Err(e) => (DirectoryIndexing::Done, DirectoryAction::Return(Err(e))),
            },
            (
                DirectoryIndexing::Preparing { settings, total, removed, force },
                DirectoryInput::Prepared(found),
            ) => match found {
                Ok(prepared) => {
                    let todo = keep_reversed(prepared);
                    let stats = IndexStats { files_removed: removed, ..IndexStats::default() };
                    let progress = Progress {
                        settings,
                        force,
                        total,
                        stats,
                        todo,
                        pending: Vec::new(),
                        pending_chunks: 0,
                    };
                    go_on_with_files(progress)
                },
                Err(e) => (DirectoryIndexing::Done, DirectoryAction::Return(Err(e))),
            },
            (
                DirectoryIndexing::AnnouncingFile { progress, file },
                DirectoryInput::Sent(sent),
            ) => {
                if sent {
                    go_on_batching(progress, file)
                } else {
                    (DirectoryIndexing::Done, DirectoryAction::Return(Ok(progress.stats)))
                }
            },
            (
                DirectoryIndexing::Flushing { progress, count: files, chunks },
                DirectoryInput::Flushed(result),
            ) => match result {
                Ok(flushed) => {
                    let p = count_flushed(progress, files, chunks, flushed);
                    go_on_with_files(p)
                },
                Err(e) => (DirectoryIndexing::Done, DirectoryAction::Return(Err(e))),
            },
            (
                DirectoryIndexing::FlushingRest { progress, count: files, chunks },
                DirectoryInput::Flushed(result),
            ) => match result {
                Ok(flushed) => {
                    let p = count_flushed(progress, files, chunks, flushed);
                    go_on_finishing(p.settings, p.force, p.stats)
                },
                Err(e) => (DirectoryIndexing::Done, DirectoryAction::Return(Err(e))),
            },
            (DirectoryIndexing::UpdatingMeta { stats }, DirectoryInput::Updated(result)) => match result {
                Ok(_) => (
                    DirectoryIndexing::Completing { stats },
                    DirectoryAction::Send(complete(stats)),
                ),
                Err(e) => (DirectoryIndexing::Done, DirectoryAction::Return(Err(e))),
            },
            (DirectoryIndexing::Completing { stats }, DirectoryInput::Sent(_)) => (
                DirectoryIndexing::Done,
                DirectoryAction::Return(Ok(stats)),
            ),
            _ => (DirectoryIndexing::Done, DirectoryAction::Stop),
        }
    }
}

proof fn lemma_kept_bounded(prepared: Seq<Option<PendingFile>>)
    ensures
        kept(prepared).len() <= prepared.len(),
    decreases prepared.len(),
{
    if prepared.len() > 0 {
        lemma_kept_bounded(prepared.drop_last());
    }
}

/// Whether the counts of a directory run of `total` files add up: each file is
/// still to come, pending, indexed or skipped.
pub open spec fn adds_up(state: DirectoryIndexing, total: usize) -> bool {
    match state {
        DirectoryIndexing::AnnouncingScan { files, .. } => files@.len() == total,
        DirectoryIndexing::ListingDocuments { files, .. } => files@.len() == total,
        DirectoryIndexing::FetchingPaths { files, .. } => files@.len() == total,
        DirectoryIndexing::Sweeping { files, .. } => files@.len() == total,
        DirectoryIndexing::CheckingModel { files, .. } => files@.len() == total,
        DirectoryIndexing::CheckingMeta { files, .. } => files@.len() == total,
        DirectoryIndexing::Preparing { total: t, .. } => t == total,
        DirectoryIndexing::AnnouncingFile { progress, .. } => {
            &&& progress.total == total
            &&& progress.stats.files_indexed + progress.pending@.len() + progress.todo@.len() + 1
                <= total
        },
        DirectoryIndexing::Flushing { progress, count: files, .. } => {
            &&& progress.total == total
            &&& progress.stats.files_indexed + files + progress.todo@.len() <= total
        },
        DirectoryIndexing::FlushingRest { progress, count: files, .. } => {
            progress.stats.files_indexed + files + progress.stats.files_skipped == total
        },
        DirectoryIndexing::UpdatingMeta { stats } => stats.files_indexed + stats.files_skipped
            == total,
        DirectoryIndexing::Completing { stats } => stats.files_indexed + stats.files_skipped
            == total,
        _ => true,
    }
}

/// Every file is accounted for: as long as the consumer stays, the files that
/// a directory run indexed and those that it skipped are together the files
/// that it found.
pub proof fn law_every_file_is_counted(
    before: DirectoryIndexing,
    input: DirectoryInput,
    after: DirectoryIndexing,
    action: DirectoryAction,
    total: usize,
)
    requires
        adds_up(before, total),
        directory_steps(before, input, after, action),
        input matches DirectoryInput::Files(Ok(files)) ==> files@.len() == total,
        input matches DirectoryInput::Prepared(Ok(list)) ==> list@.len() == total,
        !(input matches DirectoryInput::Flushed(Ok(Flushed::Left(_)))),
    ensures
        adds_up(after, total),
        before is Completing ==> (action matches DirectoryAction::Return(Ok(stats))
            ==> stats.files_indexed + stats.files_skipped == total),
{
    match (before, input) {
        (
            DirectoryIndexing::Preparing { settings, total: t, removed, force },
            DirectoryInput::Prepared(Ok(prepared)),
        ) => {
            lemma_kept_bounded(prepared@);
            let p = choose|p: Progress|
                {
                    &&& p.settings == settings
                    &&& p.force == force
                    &&& p.total == t
                    &&& p.stats == (IndexStats {
                        files_removed: removed,
                        ..indexer::nothing_indexed()
                    })
                    &&& p.todo@ == kept(prepared@).reverse()
                    &&& p.pending@.len() == 0
                    &&& p.pending_chunks == 0
                    &&& #[trigger] files_go_on(p, after, action)
                };
            assert(p.todo@.len() <= total);
        },
        (DirectoryIndexing::AnnouncingFile { progress, file }, DirectoryInput::Sent(true)) => {
            let files = progress.pending@.push(file);
            if !is_batch(progress.pending_chunks, file) {
                let p = choose|p: Progress|
                    {
                        &&& same_run(p, progress)
                        &&& p.stats == progress.stats
                        &&& p.pending@ == files
                        &&& p.pending_chunks == progress.pending_chunks + file.chunks@.len()
                        &&& #[trigger] files_go_on(p, after, action)
                    };
                assert(p.pending@.len() == progress.pending@.len() + 1);
            }
        },
        (
            DirectoryIndexing::Flushing { progress, count: files, chunks },
            DirectoryInput::Flushed(Ok(flushed)),
        ) => {
            let p = choose|p: Progress|
                counted(progress, files, chunks, flushed, p) && #[trigger] files_go_on(
                    p,
                    after,
                    action,
                );
            assert(p.stats.files_indexed == progress.stats.files_indexed + files);
        },
        _ => {},
    }
}

// ---- a single file ----

/// Indexing one file. The variants say what the run waits for.
pub enum FileIndexing {
    Ready { path: String, settings: IndexSettings },
    AnnouncingScan { path: String, settings: IndexSettings },
    Reading { settings: IndexSettings },
    ListingDocuments { settings: IndexSettings, source: DocumentSource },
    CheckingModel { settings: IndexSettings, source: DocumentSource, docs: Vec<Document> },
    CheckingMeta { settings: IndexSettings, source: DocumentSource, docs: Vec<Document> },
    Preparing { settings: IndexSettings, force: bool },
    AnnouncingFile { settings: IndexSettings, force: bool, file: PendingFile },
    /// Waits for the file, of so many chunks, to be written.
    Flushing { settings: IndexSettings, force: bool, chunks: usize },
    UpdatingMeta { stats: IndexStats },
    Completing { stats: IndexStats },
    Done,
}

/// What came of the last action of a file run.
pub enum FileInput {
    Start,
    Sent(bool),
    /// The document, or `None` where the file is left out.
    Read(Result<Option<DocumentSource>>),
    Documents(Result<Vec<Document>>),
    Model(Result<Option<ModelSpec>>),
    Meta(Result<Option<String>>),
    Prepared(Option<PendingFile>),
    Flushed(Result<Flushed>),
    Updated(Result<()>),
}

/// What a file run wants done.
pub enum FileAction {
    Send(IndexEvent),
    Read { path: String },
    ListDocuments,
    GetModel,
    GetMeta,
    Prepare { source: DocumentSource, existing: DocumentIndex, force: bool },
    Flush(Vec<PendingFile>),
    UpdateMeta { spec: ModelSpec, mark: String },
    Return(Result<IndexStats>),
    Stop,
}

pub open spec fn one_skipped() -> IndexStats {
    IndexStats { files_skipped: 1, ..indexer::nothing_indexed() }
}

pub open spec fn file_returns(after: FileIndexing, action: FileAction, r: Result<IndexStats>) -> bool {
    after == FileIndexing::Done && action == FileAction::Return(r)
}

/// Has the file prepared.
pub open spec fn file_preparation(
    settings: IndexSettings,
    source: DocumentSource,
    docs: Vec<Document>,
    force: bool,
    after: FileIndexing,
    action: FileAction,
) -> bool {
    &&& after == (FileIndexing::Preparing { settings, force })
    &&& action matches FileAction::Prepare { source: s, existing, force: f }
    &&& s == source
    &&& existing@ == indexer::document_map(docs@)
    &&& f == force
}

/// The state and the action of a file run after `input`.
pub open spec fn file_steps(
    before: FileIndexing,
    input: FileInput,
    after: FileIndexing,
    action: FileAction,
) -> bool {
    match (before, input) {
        (FileIndexing::Ready { path, settings }, FileInput::Start) => {
            &&& after == (FileIndexing::AnnouncingScan { path, settings })
            &&& action == FileAction::Send(IndexEvent::ScanStart { total_sources: 1 })
        },
        (FileIndexing::AnnouncingScan { path, settings }, FileInput::Sent(true)) => {
            &&& after == (FileIndexing::Reading { settings })
            &&& action == (FileAction::Read { path })
        },
        (FileIndexing::AnnouncingScan { .. }, FileInput::Sent(false)) => file_returns(
            after,
            action,
            Ok(indexer::nothing_indexed()),
        ),
        (FileIndexing::Reading { settings }, FileInput::Read(Ok(Some(source)))) => {
            &&& after == (FileIndexing::ListingDocuments { settings, source })
            &&& action == FileAction::ListDocuments
        },
        (FileIndexing::Reading { .. }, FileInput::Read(Ok(None))) => file_returns(
            after,
            action,
            Ok(one_skipped()),
        ),
        (
            FileIndexing::ListingDocuments { settings, source },
            FileInput::Documents(Ok(docs)),
        ) => {
            &&& after == (FileIndexing::CheckingModel { settings, source, docs })
            &&& action == FileAction::GetModel
        },
        (
            FileIndexing::CheckingModel { settings, source, docs },
            FileInput::Model(Ok(stored)),
        ) => {
            if indexer::is_other_model(stored, settings.embedding_spec) {
                file_preparation(settings, source, docs, true, after, action)
            } else {
                &&& after == (FileIndexing::CheckingMeta { settings, source, docs })
                &&& action == FileAction::GetMeta
            }
        },
        (FileIndexing::CheckingMeta { settings, source, docs }, FileInput::Meta(Ok(stored))) => {
            file_preparation(
                settings,
                source,
                docs,
                indexer::is_other_chunking(stored, settings.chunk_size, settings.chunk_overlap),
                after,
                action,
            )
        },
        (FileIndexing::Preparing { settings, force }, FileInput::Prepared(Some(file))) => {
            &&& after == (FileIndexing::AnnouncingFile { settings, force, file })
            &&& action matches FileAction::Send(event)
            &&& says_parsed(event, file)
        },
        (FileIndexing::Preparing { .. }, FileInput::Prepared(None)) => {
            &&& after == (FileIndexing::Completing { stats: one_skipped() })
            &&& action == FileAction::Send(completion(one_skipped()))
        },
        (FileIndexing::AnnouncingFile { settings, force, file }, FileInput::Sent(true)) => {
            &&& after == (FileIndexing::Flushing {
                settings,
                force,
                chunks: file.chunks@.len() as usize,
            })
            &&& action matches FileAction::Flush(batch)
            &&& batch@ == seq![file]
        },
        (FileIndexing::AnnouncingFile { .. }, FileInput::Sent(false)) => file_returns(
            after,
            action,
            Ok(indexer::nothing_indexed()),
        ),
        (FileIndexing::Flushing { settings, force, chunks }, FileInput::Flushed(Ok(flushed))) => {
            let stats = match flushed {
                Flushed::Stored => with_stored(indexer::nothing_indexed(), 1, chunks as int),
                Flushed::Left(_) => indexer::nothing_indexed(),
            };
            if force {
                &&& after == (FileIndexing::UpdatingMeta { stats })
                &&& action matches FileAction::UpdateMeta { spec, mark }
                &&& spec == settings.embedding_spec
                &&& mark@ == indexer::indexing_mark(settings.chunk_size, settings.chunk_overlap)
            } else {
                &&& after == (FileIndexing::Completing { stats })
                &&& action == FileAction::Send(completion(stats))
            }
        },
        (FileIndexing::UpdatingMeta { stats }, FileInput::Updated(Ok(_))) => {
            &&& after == (FileIndexing::Completing { stats })
            &&& action == FileAction::Send(completion(stats))
        },
        (FileIndexing::Completing { stats }, FileInput::Sent(_)) => file_returns(
            after,
            action,
            Ok(stats),
        ),
        (FileIndexing::Reading { .. }, FileInput::Read(Err(e))) => file_returns(
            after,
            action,
            Err(e),
        ),
        (FileIndexing::ListingDocuments { .. }, FileInput::Documents(Err(e))) => file_returns(
            after,
            action,
            Err(e),
        ),
        (FileIndexing::CheckingModel { .. }, FileInput::Model(Err(e))) => file_returns(
            after,
            action,
            Err(e),
        ),
        (FileIndexing::CheckingMeta { .. }, FileInput::Meta(Err(e))) => file_returns(
            after,
            action,
            Err(e),
        ),
        (FileIndexing::Flushing { .. }, FileInput::Flushed(Err(e))) => file_returns(
            after,
            action,
            Err(e),
        ),
        (FileIndexing::UpdatingMeta { .. }, FileInput::Updated(Err(e))) => file_returns(
            after,
            action,
            Err(e),
        ),
        _ => after == FileIndexing::Done && action == FileAction::Stop,
    }
}

fn skip_one() -> (r: IndexStats)
    ensures
        r == one_skipped(),
{
    IndexStats { files_skipped: 1, ..IndexStats::default() }
}

fn prepare_one(
    settings: IndexSettings,
    source: DocumentSource,
    docs: Vec<Document>,
    force: bool,
) -> (r: (FileIndexing, FileAction))
    ensures
        file_preparation(settings, source, docs, force, r.0, r.1),
{
    let existing = DocumentIndex::new(docs);
    (
        FileIndexing::Preparing { settings, force },
        FileAction::Prepare { source, existing, force },
    )
}

impl FileIndexing {
    /// Takes the next step.
    pub fn next(self, input: FileInput) -> (r: (FileIndexing, FileAction))
        ensures
            file_steps(self, input, r.0, r.1),
    {
        match (self, input) {
            (FileIndexing::Ready { path, settings }, FileInput::Start) => (
                FileIndexing::AnnouncingScan { path, settings },
                FileAction::Send(IndexEvent::ScanStart { total_sources: 1 }),
            ),
            (FileIndexing::AnnouncingScan { path, settings }, FileInput::Sent(sent)) => {
                if sent {
                    (FileIndexing::Reading { settings }, FileAction::Read { path })
                } else {
                    (FileIndexing::Done, FileAction::Return(Ok(IndexStats::default())))
                }
            },
            (FileIndexing::Reading { settings }, FileInput::Read(found)) => match found {
                Ok(Some(source)) => (
                    FileIndexing::ListingDocuments { settings, source },
                    FileAction::ListDocuments,
                ),
                Ok(None) => (FileIndexing::Done, FileAction::Return(Ok(skip_one()))),
                Err(e) => (FileIndexing::Done, FileAction::Return(Err(e))),
            },
            (
                FileIndexing::ListingDocuments { settings, source },
                FileInput::Documents(found),
            ) => match found {
                Ok(docs) => (
                    FileIndexing::CheckingModel { settings, source, docs },
                    FileAction::GetModel,
                ),
                Err(e) => (FileIndexing::Done, FileAction::Return(Err(e))),
            },
            (
                FileIndexing::CheckingModel { settings, source, docs },
                FileInput::Model(found),
            ) => match found {
                Ok(stored) => {
                    if indexer::model_changed(&stored, &settings.embedding_spec) {
                        prepare_one(settings, source, docs, true)
                    } else {
                        (
                            FileIndexing::CheckingMeta { settings, source, docs },
                            FileAction::GetMeta,
                        )
                    }
                },
                Err(e) => (FileIndexing::Done, FileAction::Return(Err(e))),
            },
            (FileIndexing::CheckingMeta { settings, source, docs }, FileInput::Meta(found)) => match found {
                Ok(stored) => {
                    let force: bool = indexer::chunking_changed(
                        &stored,
                        settings.chunk_size,
                        settings.chunk_overlap,
                    );
                    prepare_one(settings, source, docs, force)
                },
                Err(e) => (FileIndexing::Done, FileAction::Return(Err(e))),
            },
            (FileIndexing::Preparing { settings, force }, FileInput::Prepared(found)) => match found {
                Some(file) => {
                    let event = parsed(&file);
                    (
                        FileIndexing::AnnouncingFile { settings, force, file },
                        FileAction::Send(event),
                    )
                },
                None => {
                    let stats = skip_one();
                    (FileIndexing::Completing { stats }, FileAction::Send(complete(stats)))
                },
            },
            (FileIndexing::AnnouncingFile { settings, force, file }, FileInput::Sent(sent)) => {
                if sent {
                    let chunks: usize = file.chunks.len();
                    let mut batch: Vec<PendingFile> = Vec::new();
                    batch.push(file);
                    assert(batch@ =~= seq![file]);
                    (FileIndexing::Flushing { settings, force, chunks }, FileAction::Flush(batch))
                } else {
                    (FileIndexing::Done, FileAction::Return(Ok(IndexStats::default())))
                }
            },
            (FileIndexing::Flushing { settings, force, chunks }, FileInput::Flushed(result)) => match result {
                Ok(flushed) => {
                    let stats = match flushed {
                        Flushed::Stored => IndexStats {
                            files_indexed: 1,
                            chunks_indexed: chunks,
                            ..IndexStats::default()
                        },
                        Flushed::Left(_) => IndexStats::default(),
                    };
                    if force {
                        let mark = indexer::index_meta(settings.chunk_size, settings.chunk_overlap);
                        (
                            FileIndexing::UpdatingMeta { stats },
                            FileAction::UpdateMeta { spec: settings.embedding_spec, mark },
                        )
                    } else {
                        (FileIndexing::Completing { stats }, FileAction::Send(complete(stats)))
                    }
                },
                Err(e) => (FileIndexing::Done, FileAction::Return(Err(e))),
            },
            (FileIndexing::UpdatingMeta { stats }, FileInput::Updated(result)) => match result {
                Ok(_) => (FileIndexing::Completing { stats }, FileAction::Send(complete(stats))),
                Err(e) => (FileIndexing::Done, FileAction::Return(Err(e))),
            },
            (FileIndexing::Completing { stats }, FileInput::Sent(_)) => (
                FileIndexing::Done,
                FileAction::Return(Ok(stats)),
            ),
            _ => (FileIndexing::Done, FileAction::Stop),
        }
    }
}

// ---- several sources ----

/// A directory to index, with the name of the collection that it is.
#[derive(Debug)]
pub struct Source {
    pub id: String,
    pub path: String,
}

/// Indexing several directories in turn. `todo` holds those that are still to
/// come, the next one last.
pub enum SourceIndexing {
    Ready { todo: Vec<Source>, total: IndexStats },
    Indexing { todo: Vec<Source>, total: IndexStats, id: String },
    Reporting { todo: Vec<Source>, total: IndexStats },
    Closing,
    Done,
}

/// What came of the last action of a [`SourceIndexing`].
pub enum SourceInput {
    Start,
    Sent(bool),
    Indexed(Result<IndexStats>),
}

/// What a [`SourceIndexing`] wants done.
pub enum SourceAction {
    /// Index the directory.
    Index { path: String },
    Send(IndexEvent),
    Stop,
}

/// The counts of two runs together.
pub open spec fn together(a: IndexStats, b: IndexStats) -> IndexStats {
    IndexStats {
        files_indexed: capped_sum(a.files_indexed, b.files_indexed as int),
        files_skipped: capped_sum(a.files_skipped, b.files_skipped as int),
        files_removed: capped_sum(a.files_removed, b.files_removed as int),
        chunks_indexed: capped_sum(a.chunks_indexed, b.chunks_indexed as int),
    }
}

/// Indexes the next directory, or completes where none is left.
pub open spec fn sources_go_on(
    todo: Seq<Source>,
    total: IndexStats,
    after: SourceIndexing,
    action: SourceAction,
) -> bool {
    if todo.len() > 0 {
        &&& after matches SourceIndexing::Indexing { todo: t, total: s, id }
        &&& t@ == todo.drop_last()
        &&& s == total
        &&& id == todo.last().id
        &&& action == (SourceAction::Index { path: todo.last().path })
    } else {
        &&& after == SourceIndexing::Closing
        &&& action == SourceAction::Send(completion(total))
    }
}

/// The state and the action of a [`SourceIndexing`] after `input`.
pub open spec fn source_steps(
    before: SourceIndexing,
    input: SourceInput,
    after: SourceIndexing,
    action: SourceAction,
) -> bool {
    match (before, input) {
        (SourceIndexing::Ready { todo, total }, SourceInput::Start) => sources_go_on(
            todo@,
            total,
            after,
            action,
        ),
        (SourceIndexing::Indexing { todo, total, id }, SourceInput::Indexed(Ok(stats))) => {
            let sum = together(total, stats);
            &&& after == (SourceIndexing::Reporting { todo, total: sum })
            &&& action == SourceAction::Send(
                IndexEvent::SourceComplete { source_id: id, chunks: stats.chunks_indexed },
            )
        },
        (SourceIndexing::Indexing { .. }, SourceInput::Indexed(Err(e))) => {
            &&& after == SourceIndexing::Closing
            &&& action matches SourceAction::Send(IndexEvent::Error { message })
            &&& message@ == e.described()
        },
        (SourceIndexing::Reporting { todo, total }, SourceInput::Sent(true)) => sources_go_on(
            todo@,
            total,
            after,
            action,
        ),
        _ => after == SourceIndexing::Done && action == SourceAction::Stop,
    }
}

fn go_on_with_sources(todo: Vec<Source>, total: IndexStats) -> (r: (SourceIndexing, SourceAction))
    ensures
        sources_go_on(todo@, total, r.0, r.1),
{
    let mut rest = todo;
    match rest.pop() {
        Some(source) => {
            assert(rest@ =~= todo@.drop_last());
            (
                SourceIndexing::Indexing { todo: rest, total, id: source.id },
                SourceAction::Index { path: source.path },
            )
        },
        None => (SourceIndexing::Closing, SourceAction::Send(complete(total))),
    }
}

impl SourceIndexing {
    /// The sources in order.
    pub fn new(sources: Vec<Source>) -> (r: Self)
        ensures
            r matches SourceIndexing::Ready { todo, total } && todo@ == sources@.reverse() && total
                == indexer::nothing_indexed(),
    {
        let mut rest = sources;
        let mut todo: Vec<Source> = Vec::new();
        let ghost all = sources@;
        assert(all.reverse() =~= todo@ + rest@.reverse());
        while rest.len() > 0
            invariant
                all.reverse() == todo@ + rest@.reverse(),
            decreases rest@.len(),
        {
            let ghost before = rest@;
            let ghost had = todo@;
            match rest.pop() {
                Some(source) => {
                    assert(rest@ =~= before.drop_last());
                    todo.push(source);
                    assert(had + before.reverse() =~= todo@ + rest@.reverse());
                },
                None => {},
            }
        }
        assert(todo@ =~= all.reverse());
        SourceIndexing::Ready { todo, total: IndexStats::default() }
    }

    /// Takes the next step.
    pub fn next(self, input: SourceInput) -> (r: (SourceIndexing, SourceAction))
        ensures
            source_steps(self, input, r.0, r.1),
    {
        match (self, input) {
            (SourceIndexing::Ready { todo, total }, SourceInput::Start) => go_on_with_sources(
                todo,
                total,
            ),
            (SourceIndexing::Indexing { todo, total, id }, SourceInput::Indexed(result)) => match result {
                Ok(stats) => {
                    let sum = IndexStats {
                        files_indexed: plus(total.files_indexed, stats.files_indexed),
                        files_skipped: plus(total.files_skipped, stats.files_skipped),
                        files_removed: plus(total.files_removed, stats.files_removed),
                        chunks_indexed: plus(total.chunks_indexed, stats.chunks_indexed),
                    };
                    (
                        SourceIndexing::Reporting { todo, total: sum },
                        SourceAction::Send(
                            IndexEvent::SourceComplete {
                                source_id: id,
                                chunks: stats.chunks_indexed,
                            },
                        ),
                    )
                },
                Err(e) => (
                    SourceIndexing::Closing,
                    SourceAction::Send(IndexEvent::Error { message: e.message() }),
                ),
            },
            (SourceIndexing::Reporting { todo, total }, SourceInput::Sent(sent)) => {
                if sent {
                    go_on_with_sources(todo, total)
                } else {
                    (SourceIndexing::Done, SourceAction::Stop)
                }
            },
            _ => (SourceIndexing::Done, SourceAction::Stop),
        }
    }
}

// ---- the outcome of a run ----

/// The counts after one more event: those of the completion event, which
/// replace all before.
pub open spec fn counts_after(stats: IndexStats, event: IndexEvent) -> IndexStats {
    match event {
        IndexEvent::Complete { files, chunks, files_skipped, files_removed } => IndexStats {
            files_indexed: files,
            chunks_indexed: chunks,
            files_skipped,
            files_removed,
        },
        _ => stats,
    }
}

/// Folds the events of an index run into its counts.
pub fn collect_index_stats(stats: IndexStats, item: Result<IndexEvent>) -> (r: Result<IndexStats>)
    ensures
        match item {
            Ok(event) => r == Ok::<IndexStats, DocqError>(counts_after(stats, event)),
            Err(e) => r == Err::<IndexStats, DocqError>(e),
        },
{
    match item {
        Ok(event) => match event {
            IndexEvent::Complete { files, chunks, files_skipped, files_removed } => Ok(
                IndexStats {
                    files_indexed: files,
                    chunks_indexed: chunks,
                    files_skipped,
                    files_removed,
                },
            ),
            _ => Ok(stats),
        },
        Err(e) => Err(e),
    }
}

/// What a run reports as its completion is what its events are folded into.
pub proof fn law_completion_is_collected(stats: IndexStats, before: IndexStats)
    ensures
        counts_after(before, completion(stats)) == stats,
{
}

// ---- what a batch stores ----

proof fn lemma_offset_prefix(files: Seq<PendingFile>, n: int)
    requires
        0 <= n < files.len(),
    ensures
        batch::chunk_offset(files.drop_last(), n) == batch::chunk_offset(files, n),
    decreases n,
{
    if n > 0 {
        lemma_offset_prefix(files, n - 1);
        assert(files.drop_last()[n - 1] == files[n - 1]);
    }
}

proof fn lemma_all_texts_len(files: Seq<PendingFile>)
    requires
        forall|k: int|
            0 <= k < files.len() ==> (#[trigger] files[k]).chunk_texts@.len()
                == files[k].chunks@.len(),
    ensures
        all_texts(files).len() == batch::chunk_offset(files, files.len() as int),
    decreases files.len(),
{
    if files.len() > 0 {
        let front = files.drop_last();
        assert forall|k: int| 0 <= k < front.len() implies (#[trigger] front[k]).chunk_texts@.len()
            == front[k].chunks@.len() by {
            assert(front[k] == files[k]);
        }
        lemma_all_texts_len(front);
        lemma_offset_prefix(files, front.len() as int);
        assert(text::views(files.last().chunk_texts@).len() == files.last().chunk_texts@.len());
    }
}

proof fn lemma_texts_in_order(files: Seq<PendingFile>, k: int, i: int)
    requires
        forall|j: int|
            0 <= j < files.len() ==> (#[trigger] files[j]).chunk_texts@.len()
                == files[j].chunks@.len(),
        0 <= k < files.len(),
        0 <= i < files[k].chunks@.len(),
    ensures
        0 <= batch::chunk_offset(files, k) + i < all_texts(files).len(),
        all_texts(files)[batch::chunk_offset(files, k) + i] == files[k].chunk_texts@[i]@,
    decreases files.len(),
{
    let front = files.drop_last();
    let n = front.len() as int;
    assert forall|j: int| 0 <= j < n implies (#[trigger] front[j]).chunk_texts@.len()
        == front[j].chunks@.len() by {
        assert(front[j] == files[j]);
    }
    lemma_all_texts_len(front);
    lemma_offset_prefix(files, k);
    let last = text::views(files.last().chunk_texts@);
    assert(last.len() == files.last().chunk_texts@.len());
    assert(all_texts(files) == all_texts(front) + last);
    if k < n {
        assert(front[k] == files[k]);
        lemma_texts_in_order(front, k, i);
    } else {
        assert(last[i] == files[k].chunk_texts@[i]@);
    }
}

/// Each chunk is stored with the embedding of its own text. Where the embedder
/// answers each text that it is handed with the vector `embed` gives for it, the
/// operations that come of the batch hold, for every file, one that stores under
/// the identifier of each chunk the vector of that chunk's text. The result
/// gives the place of that operation for the file `k`.
pub proof fn law_chunks_get_their_own_vectors(
    files: Vec<PendingFile>,
    texts: Vec<String>,
    embeddings: Vec<Vec<u32>>,
    ops: Vec<StoreOp>,
    asked: Flush,
    answered: Flush,
    written: Flush,
    told: FlushAction,
    embed: spec_fn(Seq<char>) -> Seq<u32>,
    k: int,
) -> (at: int)
    requires
        flush_steps(
            Flush::Announcing { files },
            FlushInput::Sent(true),
            asked,
            FlushAction::Embed(texts),
        ),
        flush_steps(asked, FlushInput::Embedded(Ok(embeddings)), answered, told),
        flush_steps(answered, FlushInput::Sent(true), written, FlushAction::Write(ops)),
        embeddings@.len() == texts@.len(),
        forall|i: int| 0 <= i < texts@.len() ==> (#[trigger] embeddings@[i])@ == embed(texts@[i]@),
        forall|j: int|
            0 <= j < files@.len() ==> (#[trigger] files@[j]).chunk_texts@.len()
                == files@[j].chunks@.len(),
        0 <= k < files@.len(),
    ensures
        0 <= at < ops@.len(),
        ops@[at] matches StoreOp::AddVectors { chunk_ids, embeddings: stored } && {
            &&& chunk_ids@.len() == files@[k].chunks@.len()
            &&& stored@.len() == files@[k].chunks@.len()
            &&& forall|i: int|
                0 <= i < chunk_ids@.len() ==> (#[trigger] chunk_ids@[i])@
                    == files@[k].chunks@[i].id@
            &&& forall|i: int|
                0 <= i < stored@.len() ==> (#[trigger] stored@[i])@ == embed(
                    files@[k].chunk_texts@[i]@,
                )
        },
{
    let vs = batch::vectors(embeddings@);
    let views = text::views(texts@);
    lemma_all_texts_len(files@);
    assert(views.len() == texts@.len());
    assert(vs.len() == embeddings@.len());
    let places = batch::law_plan_writes_each_file(files@, vs);
    let file = files@[k];
    let at = places[k] + 4;
    assert(batch::op_views(ops@).len() == ops@.len());
    assert(batch::op_views(ops@)[at] == ops@[at]@);
    lemma_vectors_are_own(files@, texts@, embeddings@, ops@[at], embed, k);
    at
}

proof fn lemma_vectors_are_own(
    files: Seq<PendingFile>,
    texts: Seq<String>,
    embeddings: Seq<Vec<u32>>,
    op: StoreOp,
    embed: spec_fn(Seq<char>) -> Seq<u32>,
    k: int,
)
    requires
        text::views(texts) == all_texts(files),
        embeddings.len() == texts.len(),
        forall|i: int| 0 <= i < texts.len() ==> (#[trigger] embeddings[i])@ == embed(texts[i]@),
        forall|j: int|
            0 <= j < files.len() ==> (#[trigger] files[j]).chunk_texts@.len()
                == files[j].chunks@.len(),
        0 <= k < files.len(),
        op@ matches OpView::AddVectors { chunk_ids, embeddings: stored } && {
            &&& chunk_ids.len() == files[k].chunks@.len()
            &&& stored.len() == files[k].chunks@.len()
            &&& forall|i: int|
                0 <= i < chunk_ids.len() ==> #[trigger] chunk_ids[i] == files[k].chunks@[i].id@
            &&& forall|i: int|
                0 <= i < stored.len() ==> #[trigger] stored[i] == batch::vectors(
                    embeddings,
                )[batch::chunk_offset(files, k) + i]
        },
    ensures
        op matches StoreOp::AddVectors { chunk_ids, embeddings: stored } && {
            &&& chunk_ids@.len() == files[k].chunks@.len()
            &&& stored@.len() == files[k].chunks@.len()
            &&& forall|i: int|
                0 <= i < chunk_ids@.len() ==> (#[trigger] chunk_ids@[i])@ == files[k].chunks@[i].id@
            &&& forall|i: int|
                0 <= i < stored@.len() ==> (#[trigger] stored@[i])@ == embed(
                    files[k].chunk_texts@[i]@,
                )
        },
{
    match op {
        StoreOp::AddVectors { chunk_ids, embeddings: stored } => {
            let ids = text::views(chunk_ids@);
            let vectors = batch::vectors(stored@);
            assert(op@ == (OpView::AddVectors { chunk_ids: ids, embeddings: vectors }));
            assert(ids.len() == chunk_ids@.len());
            assert(vectors.len() == stored@.len());
            assert forall|i: int| 0 <= i < chunk_ids@.len() implies (#[trigger] chunk_ids@[i])@
                == files[k].chunks@[i].id@ by {
                assert(ids[i] == chunk_ids@[i]@);
            }
            assert forall|i: int| 0 <= i < stored@.len() implies (#[trigger] stored@[i])@ == embed(
                files[k].chunk_texts@[i]@,
            ) by {
                let j = batch::chunk_offset(files, k) + i;
                lemma_texts_in_order(files, k, i);
                assert(vectors[i] == stored@[i]@);
                assert(text::views(texts).len() == texts.len());
                assert(batch::vectors(embeddings)[j] == embeddings[j]@);
                assert(text::views(texts)[j] == texts[j]@);
            }
        },
        _ => {},
    }
}

// ---- what a directory run decides ----

proof fn lemma_kept_in_order(prepared: Seq<Option<PendingFile>>) -> (at: Seq<int>)
    ensures
        at.len() == kept(prepared).len(),
        forall|p: int, q: int| 0 <= p < q < at.len() ==> #[trigger] at[p] < #[trigger] at[q],
        forall|p: int|
            0 <= p < at.len() ==> 0 <= (#[trigger] at[p]) < prepared.len() && prepared[at[p]]
                == Some(kept(prepared)[p]),
        forall|i: int|
            0 <= i < prepared.len() && (#[trigger] prepared[i]) is Some ==> at.contains(i),
    decreases prepared.len(),
{
    if prepared.len() == 0 {
        Seq::empty()
    } else {
        let front = prepared.drop_last();
        let places = lemma_kept_in_order(front);
        let last = prepared.len() - 1;
        let at = if prepared.last() is Some {
            places.push(last)
        } else {
            places
        };
        assert forall|p: int| 0 <= p < at.len() implies 0 <= (#[trigger] at[p]) < prepared.len()
            && prepared[at[p]] == Some(kept(prepared)[p]) by {
            if p < places.len() {
                assert(at[p] == places[p]);
                assert(front[places[p]] == prepared[places[p]]);
            }
        }
        assert forall|i: int| 0 <= i < prepared.len() && (#[trigger] prepared[i]) is Some implies at.contains(
            i,
        ) by {
            if i < last {
                assert(front[i] == prepared[i]);
                assert(places.contains(i));
                let k = choose|k: int| 0 <= k < places.len() && places[k] == i;
                assert(at[k] == i);
            } else {
                assert(at[places.len() as int] == i);
            }
        }
        at
    }
}

/// All files that were prepared are taken up, in their order, and none of those
/// that were left out: the first is announced, and the others wait, the next one
/// last. The result gives the place of each.
pub proof fn law_prepared_files_are_taken_up(
    settings: IndexSettings,
    total: usize,
    removed: usize,
    force: bool,
    prepared: Vec<Option<PendingFile>>,
    after: DirectoryIndexing,
    action: DirectoryAction,
) -> (at: Seq<int>)
    requires
        directory_steps(
            DirectoryIndexing::Preparing { settings, total, removed, force },
            DirectoryInput::Prepared(Ok(prepared)),
            after,
            action,
        ),
    ensures
        forall|p: int, q: int| 0 <= p < q < at.len() ==> #[trigger] at[p] < #[trigger] at[q],
        forall|p: int|
            0 <= p < at.len() ==> 0 <= (#[trigger] at[p]) < prepared@.len() && prepared@[at[p]] is Some,
        forall|i: int|
            0 <= i < prepared@.len() && (#[trigger] prepared@[i]) is Some ==> at.contains(i),
        at.len() > 0 ==> {
            &&& after matches DirectoryIndexing::AnnouncingFile { progress, file }
            &&& prepared@[at[0]] == Some(file)
            &&& progress.todo@.len() == at.len() - 1
            &&& forall|p: int|
                0 < p < at.len() ==> prepared@[#[trigger] at[p]] == Some(
                    progress.todo@[at.len() - 1 - p],
                )
            &&& progress.settings == settings && progress.force == force && progress.total == total
            &&& progress.pending@.len() == 0 && progress.pending_chunks == 0
            &&& progress.stats.files_indexed == 0 && progress.stats.chunks_indexed == 0
            &&& progress.stats.files_skipped == 0 && progress.stats.files_removed == removed
            &&& action matches DirectoryAction::Send(
                IndexEvent::FileParsed { source_id, path, chunks },
            )
            &&& source_id@ == file.path@ && path@ == file.path@ && chunks == file.chunks@.len()
        },
{
    let all = kept(prepared@);
    let at = lemma_kept_in_order(prepared@);
    let p = choose|p: Progress|
        {
            &&& p.settings == settings
            &&& p.force == force
            &&& p.total == total
            &&& p.stats == (IndexStats { files_removed: removed, ..indexer::nothing_indexed() })
            &&& p.todo@ == kept(prepared@).reverse()
            &&& p.pending@.len() == 0
            &&& p.pending_chunks == 0
            &&& #[trigger] files_go_on(p, after, action)
        };
    if at.len() > 0 {
        assert(p.todo@.last() == all[0]);
        if let DirectoryIndexing::AnnouncingFile { progress, file } = after {
            assert forall|k: int| 0 < k < at.len() implies prepared@[#[trigger] at[k]] == Some(
                progress.todo@[at.len() - 1 - k],
            ) by {
                assert(p.todo@[at.len() - 1 - k] == all[k]);
            }
        }
    }
    at
}

/// An announced file joins those that are pending. From 500 chunks on they are
/// embedded and written together. Before that the next file is announced, and
/// behind the last one what is pending is written.
pub proof fn law_batches_are_of_500_chunks(
    progress: Progress,
    file: PendingFile,
    after: DirectoryIndexing,
    action: DirectoryAction,
)
    requires
        directory_steps(
            DirectoryIndexing::AnnouncingFile { progress, file },
            DirectoryInput::Sent(true),
            after,
            action,
        ),
    ensures
        progress.pending_chunks + file.chunks@.len() >= 500 ==> {
            &&& action matches DirectoryAction::Flush(files)
            &&& files@ == progress.pending@.push(file)
            &&& after matches DirectoryIndexing::Flushing { progress: p, count, chunks }
            &&& count == progress.pending@.len() + 1
            &&& batch::chunk_offset(files@, files@.len() as int) <= usize::MAX ==> chunks
                == batch::chunk_offset(files@, files@.len() as int)
            &&& p.todo == progress.todo && p.stats == progress.stats && p.total == progress.total
            &&& p.force == progress.force && p.settings == progress.settings
        },
        progress.pending_chunks + file.chunks@.len() < 500 && progress.todo@.len() > 0 ==> {
            let next = progress.todo@.last();
            &&& action matches DirectoryAction::Send(
                IndexEvent::FileParsed { source_id, path, chunks },
            )
            &&& source_id@ == next.path@ && path@ == next.path@ && chunks == next.chunks@.len()
            &&& after matches DirectoryIndexing::AnnouncingFile { progress: p, file: f }
            &&& f == next
            &&& p.todo@ == progress.todo@.drop_last()
            &&& p.pending@ == progress.pending@.push(file)
            &&& p.pending_chunks == progress.pending_chunks + file.chunks@.len()
            &&& p.stats == progress.stats && p.total == progress.total
            &&& p.force == progress.force && p.settings == progress.settings
        },
        progress.pending_chunks + file.chunks@.len() < 500 && progress.todo@.len() == 0 ==> {
            &&& action matches DirectoryAction::Flush(files)
            &&& files@ == progress.pending@.push(file)
            &&& after matches DirectoryIndexing::FlushingRest { progress: p, count, chunks }
            &&& count == progress.pending@.len() + 1
            &&& batch::chunk_offset(files@, files@.len() as int) <= usize::MAX ==> chunks
                == batch::chunk_offset(files@, files@.len() as int)
            &&& p.force == progress.force && p.settings == progress.settings
            &&& p.stats.files_indexed == progress.stats.files_indexed
            &&& p.stats.chunks_indexed == progress.stats.chunks_indexed
            &&& p.stats.files_removed == progress.stats.files_removed
            &&& progress.stats.files_indexed + count <= progress.total ==> p.stats.files_skipped
                == progress.total - progress.stats.files_indexed - count
        },
{
    if progress.pending_chunks + file.chunks@.len() < 500 {
        let p = choose|p: Progress|
            {
                &&& same_run(p, progress)
                &&& p.stats == progress.stats
                &&& p.pending@ == progress.pending@.push(file)
                &&& p.pending_chunks == progress.pending_chunks + file.chunks@.len()
                &&& #[trigger] files_go_on(p, after, action)
            };
        assert(p.pending@.len() == progress.pending@.len() + 1);
    }
}

/// What was written is counted: so many files and so many chunks more are indexed,
/// and the batch starts anew. Behind the last file the run ends with those counts;
/// the files that were neither indexed nor pending are the skipped ones.
pub proof fn law_written_files_are_counted(
    progress: Progress,
    count: usize,
    chunks: usize,
    after: DirectoryIndexing,
    action: DirectoryAction,
)
    requires
        directory_steps(
            DirectoryIndexing::Flushing { progress, count, chunks },
            DirectoryInput::Flushed(Ok(Flushed::Stored)),
            after,
            action,
        ),
        progress.stats.files_indexed + count <= progress.total,
        progress.stats.chunks_indexed + chunks <= usize::MAX,
    ensures
        progress.todo@.len() > 0 ==> {
            &&& after matches DirectoryIndexing::AnnouncingFile { progress: p, file }
            &&& file == progress.todo@.last() && p.todo@ == progress.todo@.drop_last()
            &&& p.stats.files_indexed == progress.stats.files_indexed + count
            &&& p.stats.chunks_indexed == progress.stats.chunks_indexed + chunks
            &&& p.stats.files_removed == progress.stats.files_removed
            &&& p.pending@.len() == 0 && p.pending_chunks == 0
        },
        progress.todo@.len() == 0 ==> {
            let stats = IndexStats {
                files_indexed: (progress.stats.files_indexed + count) as usize,
                chunks_indexed: (progress.stats.chunks_indexed + chunks) as usize,
                files_skipped: (progress.total - progress.stats.files_indexed - count) as usize,
                files_removed: progress.stats.files_removed,
            };
            &&& progress.force ==> after == (DirectoryIndexing::UpdatingMeta { stats })
            &&& !progress.force ==> after == (DirectoryIndexing::Completing { stats })
        },
{
    let p = choose|p: Progress|
        counted(progress, count, chunks, Flushed::Stored, p) && #[trigger] files_go_on(
            p,
            after,
            action,
        );
    assert(p.stats.files_indexed == progress.stats.files_indexed + count);
    assert(p.stats.chunks_indexed == progress.stats.chunks_indexed + chunks);
}

/// After the last batch the index is marked with the model and the chunking where
/// everything was indexed again, and the run completes with the counts.
pub proof fn law_rebuilt_index_is_marked(
    progress: Progress,
    count: usize,
    chunks: usize,
    after: DirectoryIndexing,
    action: DirectoryAction,
)
    requires
        directory_steps(
            DirectoryIndexing::FlushingRest { progress, count, chunks },
            DirectoryInput::Flushed(Ok(Flushed::Stored)),
            after,
            action,
        ),
        progress.stats.files_indexed + count <= usize::MAX,
        progress.stats.chunks_indexed + chunks <= usize::MAX,
    ensures
        ({
            let stats = IndexStats {
                files_indexed: (progress.stats.files_indexed + count) as usize,
                chunks_indexed: (progress.stats.chunks_indexed + chunks) as usize,
                files_skipped: progress.stats.files_skipped,
                files_removed: progress.stats.files_removed,
            };
            if progress.force {
                &&& after == (DirectoryIndexing::UpdatingMeta { stats })
                &&& action matches DirectoryAction::UpdateMeta { spec, mark }
                &&& spec == progress.settings.embedding_spec
                &&& mark@ == text::decimal(progress.settings.chunk_size as nat) + seq![':']
                    + text::decimal(progress.settings.chunk_overlap as nat)
            } else {
                &&& after == (DirectoryIndexing::Completing { stats })
                &&& action == DirectoryAction::Send(
                    IndexEvent::Complete {
                        files: stats.files_indexed,
                        chunks: stats.chunks_indexed,
                        files_skipped: stats.files_skipped,
                        files_removed: stats.files_removed,
                    },
                )
            }
        }),
{
    indexer::law_mark_names_the_chunking(
        progress.settings.chunk_size,
        progress.settings.chunk_overlap,
    );
}

/// Once the index is marked the run completes, and once that is sent it returns
/// the same counts.
pub proof fn law_counts_are_returned(
    stats: IndexStats,
    sent: bool,
    after: DirectoryIndexing,
    action: DirectoryAction,
    end: DirectoryIndexing,
    last: DirectoryAction,
)
    requires
        directory_steps(
            DirectoryIndexing::UpdatingMeta { stats },
            DirectoryInput::Updated(Ok(())),
            after,
            action,
        ),
        directory_steps(after, DirectoryInput::Sent(sent), end, last),
    ensures
        action == DirectoryAction::Send(
            IndexEvent::Complete {
                files: stats.files_indexed,
                chunks: stats.chunks_indexed,
                files_skipped: stats.files_skipped,
                files_removed: stats.files_removed,
            },
        ),
        last == DirectoryAction::Return(Ok(stats)),
{
}

/// The files are prepared with the documents that the index holds. Nothing is
/// taken as unchanged where the model of the index is another one, or none is
/// known; where it is the same, the chunking decides in the same way.
pub proof fn law_other_model_prepares_all(
    settings: IndexSettings,
    files: Vec<String>,
    docs: Vec<Document>,
    removed: usize,
    stored: Option<ModelSpec>,
    after: DirectoryIndexing,
    action: DirectoryAction,
)
    requires
        directory_steps(
            DirectoryIndexing::CheckingModel { settings, files, docs, removed },
            DirectoryInput::Model(Ok(stored)),
            after,
            action,
        ),
    ensures
        ({
            let current = settings.embedding_spec;
            let same = stored matches Some(spec) && spec.repo_id@ == current.repo_id@
                && spec.filename@ == current.filename@ && spec.revision@ == current.revision@;
            if same {
                &&& after == (DirectoryIndexing::CheckingMeta { settings, files, docs, removed })
                &&& action == DirectoryAction::GetMeta
            } else {
                &&& after == (DirectoryIndexing::Preparing {
                    settings,
                    total: files@.len() as usize,
                    removed,
                    force: true,
                })
                &&& action matches DirectoryAction::Prepare { files: asked, existing, force }
                &&& asked == files && force
                &&& existing@ == indexer::document_map(docs@)
            }
        }),
{
}

/// Where the model is the same, everything is prepared anew exactly if the mark of
/// the index is not that of the current chunking, or there is none.
pub proof fn law_other_chunking_prepares_all(
    settings: IndexSettings,
    files: Vec<String>,
    docs: Vec<Document>,
    removed: usize,
    stored: Option<String>,
    after: DirectoryIndexing,
    action: DirectoryAction,
)
    requires
        directory_steps(
            DirectoryIndexing::CheckingMeta { settings, files, docs, removed },
            DirectoryInput::Meta(Ok(stored)),
            after,
            action,
        ),
    ensures
        ({
            let same = stored matches Some(mark) && mark@ == text::decimal(
                settings.chunk_size as nat,
            ) + seq![':'] + text::decimal(settings.chunk_overlap as nat);
            &&& after == (DirectoryIndexing::Preparing {
                settings,
                total: files@.len() as usize,
                removed,
                force: !same,
            })
            &&& action matches DirectoryAction::Prepare { files: asked, existing, force }
            &&& asked == files && force == !same
            &&& existing@ == indexer::document_map(docs@)
        }),
{
    indexer::law_mark_names_the_chunking(settings.chunk_size, settings.chunk_overlap);
}

/// The documents whose files are gone are removed one by one, in order, and
/// counted; then the model is checked.
pub proof fn law_gone_documents_are_removed(
    settings: IndexSettings,
    files: Vec<String>,
    docs: Vec<Document>,
    gone: Vec<String>,
    removed: usize,
    after: DirectoryIndexing,
    action: DirectoryAction,
)
    requires
        directory_steps(
            DirectoryIndexing::Sweeping { settings, files, docs, gone, removed },
            DirectoryInput::Removed(Ok(())),
            after,
            action,
        ),
        removed < gone@.len(),
    ensures
        removed + 1 < gone@.len() ==> {
            &&& action matches DirectoryAction::Remove { doc_id }
            &&& doc_id@ == gone@[removed + 1]@
            &&& after matches DirectoryIndexing::Sweeping {
                settings: s,
                files: f,
                docs: d,
                gone: g,
                removed: n,
            }
            &&& s == settings && f == files && d == docs && n == removed + 1
            &&& g@.len() == gone@.len()
            &&& forall|i: int| 0 <= i < g@.len() ==> (#[trigger] g@[i])@ == gone@[i]@
        },
        removed + 1 == gone@.len() ==> {
            &&& action == DirectoryAction::GetModel
            &&& after matches DirectoryIndexing::CheckingModel {
                settings: s,
                files: f,
                docs: d,
                removed: n,
            }
            &&& s == settings && f == files && d == docs && n == gone@.len()
        },
{
    let views = text::views(gone@);
    assert(views.len() == gone@.len());
    if removed + 1 < gone@.len() {
        assert(views[removed + 1] == gone@[removed + 1]@);
        if let DirectoryIndexing::Sweeping { gone: g, .. } = after {
            assert(text::views(g@).len() == g@.len());
            assert forall|i: int| 0 <= i < g@.len() implies (#[trigger] g@[i])@ == gone@[i]@ by {
                assert(text::views(g@)[i] == g@[i]@);
                assert(views[i] == gone@[i]@);
            }
        }
    }
}

/// Of the documents of the index those are removed whose path is known and lies in
/// the directory, and whose id is that of none of its files.
pub proof fn law_sweep_finds_the_gone(
    dir: String,
    settings: IndexSettings,
    files: Vec<String>,
    docs: Vec<Document>,
    paths: Vec<DocumentPath>,
    after: DirectoryIndexing,
    action: DirectoryAction,
    i: int,
)
    requires
        directory_steps(
            DirectoryIndexing::FetchingPaths { dir, settings, files, docs },
            DirectoryInput::Paths(Ok(paths)),
            after,
            action,
        ),
        0 <= i < docs@.len(),
    ensures
        ({
            let id = docs@[i].id@;
            let known = retriever::path_map(paths@);
            let is_gone = known.contains_key(id) && indexer::lies_in(known[id], dir@) && (forall|
                k: int,
            | 0 <= k < files@.len() ==> hash::text_id((#[trigger] files@[k])@) != id);
            let gone = match after {
                DirectoryIndexing::Sweeping { gone, .. } => text::views(gone@),
                _ => Seq::empty(),
            };
            &&& is_gone <==> gone.contains(id)
            &&& after matches DirectoryIndexing::Sweeping { gone: g, removed, .. } ==> removed == 0
                && (action matches DirectoryAction::Remove { doc_id } && doc_id@ == g@[0]@)
            &&& !(after is Sweeping) ==> action == DirectoryAction::GetModel && after == (
            DirectoryIndexing::CheckingModel { settings, files, docs, removed: 0 })
        }),
{
    let id = docs@[i].id@;
    let known = retriever::path_map(paths@);
    let current = ids_of_paths(files@);
    let all = indexer::gone_documents(docs@, current, known, dir@);
    assert(current.len() == files@.len());
    let is_gone = known.contains_key(id) && indexer::lies_in(known[id], dir@) && (forall|k: int|
        0 <= k < files@.len() ==> hash::text_id((#[trigger] files@[k])@) != id);
    if current.contains(id) {
        let k = choose|k: int| 0 <= k < current.len() && current[k] == id;
        assert(hash::text_id(files@[k]@) == id);
    } else {
        assert forall|k: int| 0 <= k < files@.len() implies hash::text_id((#[trigger] files@[k])@)
            != id by {
            assert(current[k] == hash::text_id(files@[k]@));
            assert(current.contains(current[k]));
        }
    }
    if is_gone {
        indexer::law_all_gone_documents(docs@, current, known, dir@, i);
    }
    if all.contains(id) {
        let k = choose|k: int| 0 <= k < all.len() && all[k] == id;
        indexer::law_only_gone_documents(docs@, current, known, dir@, k);
    }
    if let DirectoryIndexing::Sweeping { gone: g, .. } = after {
        assert(text::views(g@).len() == g@.len());
        assert(text::views(g@)[0] == g@[0]@);
    }
}

/// What fails in a directory run is what it returns.
pub proof fn law_errors_end_the_run(
    before: DirectoryIndexing,
    input: DirectoryInput,
    after: DirectoryIndexing,
    action: DirectoryAction,
)
    requires
        directory_steps(before, input, after, action),
    ensures
        input matches DirectoryInput::Files(Err(e)) ==> before is ListingFiles ==> action
            == DirectoryAction::Return(Err(e)),
        input matches DirectoryInput::Documents(Err(e)) ==> before is ListingDocuments ==> action
            == DirectoryAction::Return(Err(e)),
        input matches DirectoryInput::Paths(Err(e)) ==> before is FetchingPaths ==> action
            == DirectoryAction::Return(Err(e)),
        input matches DirectoryInput::Removed(Err(e)) ==> before is Sweeping ==> action
            == DirectoryAction::Return(Err(e)),
        input matches DirectoryInput::Model(Err(e)) ==> before is CheckingModel ==> action
            == DirectoryAction::Return(Err(e)),
        input matches DirectoryInput::Meta(Err(e)) ==> before is CheckingMeta ==> action
            == DirectoryAction::Return(Err(e)),
        input matches DirectoryInput::Prepared(Err(e)) ==> before is Preparing ==> action
            == DirectoryAction::Return(Err(e)),
        input matches DirectoryInput::Flushed(Err(e)) ==> before is Flushing || before is FlushingRest
            ==> action == DirectoryAction::Return(Err(e)),
        input matches DirectoryInput::Updated(Err(e)) ==> before is UpdatingMeta ==> action
            == DirectoryAction::Return(Err(e)),
        input == DirectoryInput::Sent(false) && before is AnnouncingScan ==> action
            == DirectoryAction::Return(
            Ok(
                IndexStats {
                    files_indexed: 0,
                    files_skipped: 0,
                    files_removed: 0,
                    chunks_indexed: 0,
                },
            ),
        ),
        before matches DirectoryIndexing::AnnouncingFile { progress, .. } ==> input
            == DirectoryInput::Sent(false) ==> action == DirectoryAction::Return(
            Ok(progress.stats),
        ),
{
}

/// A batch is embedded as one, announced with the number of its texts, and what
/// fails in it is returned; where nobody listens, its files are handed back.
pub proof fn law_batch_runs_through(
    before: Flush,
    input: FlushInput,
    after: Flush,
    action: FlushAction,
)
    requires
        flush_steps(before, input, after, action),
    ensures
        before matches Flush::Ready { files } ==> input is Start ==> after == (Flush::Announcing {
            files,
        }) && (action matches FlushAction::Send(IndexEvent::EmbeddingBatch { count }) && count
            == all_texts(files@).len()),
        before matches Flush::Embedding { files } ==> (input matches FlushInput::Embedded(Ok(v)) ==> after == (
        Flush::AnnouncingWrite { files, embeddings: v }) && action == FlushAction::Send(
            IndexEvent::WritingStore,
        )),
        input matches FlushInput::Embedded(Err(e)) ==> before is Embedding ==> action
            == FlushAction::Return(Err(e)),
        input matches FlushInput::Written(Err(e)) ==> before is Writing ==> action
            == FlushAction::Return(Err(e)),
        input matches FlushInput::Written(Ok(_)) ==> before is Writing ==> action
            == FlushAction::Return(Ok(Flushed::Stored)),
        before matches Flush::Announcing { files } ==> input == FlushInput::Sent(false) ==> action
            == FlushAction::Return(Ok(Flushed::Left(files))),
        before matches Flush::AnnouncingWrite { files, .. } ==> input == FlushInput::Sent(false)
            ==> action == FlushAction::Return(Ok(Flushed::Left(files))),
{
}

/// A directory run lists the files of the directory, announces their number, and
/// asks for the paths of all documents of the index, in their order.
pub proof fn law_directory_is_listed(
    dir: String,
    settings: IndexSettings,
    files: Vec<String>,
    docs: Vec<Document>,
    states: Seq<DirectoryIndexing>,
    actions: Seq<DirectoryAction>,
)
    requires
        states.len() == 5 && actions.len() == 4,
        states[0] == (DirectoryIndexing::Ready { dir, settings }),
        directory_steps(states[0], DirectoryInput::Start, states[1], actions[0]),
        directory_steps(states[1], DirectoryInput::Files(Ok(files)), states[2], actions[1]),
        directory_steps(states[2], DirectoryInput::Sent(true), states[3], actions[2]),
        directory_steps(states[3], DirectoryInput::Documents(Ok(docs)), states[4], actions[3]),
    ensures
        actions[0] matches DirectoryAction::ListFiles { dir: asked } && asked@ == dir@,
        actions[1] matches DirectoryAction::Send(IndexEvent::ScanStart { total_sources })
            && total_sources == files@.len(),
        actions[2] == DirectoryAction::ListDocuments,
        docs@.len() > 0 ==> states[4] == (DirectoryIndexing::FetchingPaths {
            dir,
            settings,
            files,
            docs,
        }) && (actions[3] matches DirectoryAction::FetchPaths(ids) && ids@.len() == docs@.len()
            && forall|i: int| 0 <= i < ids@.len() ==> (#[trigger] ids@[i])@ == docs@[i].id@),
        docs@.len() == 0 ==> states[4] == (DirectoryIndexing::CheckingModel {
            settings,
            files,
            docs,
            removed: 0,
        }) && actions[3] == DirectoryAction::GetModel,
{
    if let DirectoryAction::FetchPaths(ids) = actions[3] {
        assert(text::views(ids@).len() == ids@.len());
        assert(ids_of_documents(docs@).len() == docs@.len());
        assert forall|i: int| 0 <= i < ids@.len() implies (#[trigger] ids@[i])@ == docs@[i].id@ by {
            assert(text::views(ids@)[i] == ids@[i]@);
            assert(ids_of_documents(docs@)[i] == docs@[i].id@);
        }
    }
}

// ---- what a file run and several sources decide ----

/// A single file is read, and prepared with the documents of the index: anew where
/// the model of the index is another, or none is known, else where its chunking is
/// another, or none is known.
pub proof fn law_single_file_is_prepared(
    settings: IndexSettings,
    source: DocumentSource,
    docs: Vec<Document>,
    stored: Option<ModelSpec>,
    mark: Option<String>,
    middle: FileIndexing,
    first: FileAction,
    after: FileIndexing,
    action: FileAction,
)
    requires
        file_steps(
            FileIndexing::CheckingModel { settings, source, docs },
            FileInput::Model(Ok(stored)),
            middle,
            first,
        ),
        file_steps(
            FileIndexing::CheckingMeta { settings, source, docs },
            FileInput::Meta(Ok(mark)),
            after,
            action,
        ),
    ensures
        ({
            let current = settings.embedding_spec;
            let same = stored matches Some(spec) && spec.repo_id@ == current.repo_id@
                && spec.filename@ == current.filename@ && spec.revision@ == current.revision@;
            if same {
                middle == (FileIndexing::CheckingMeta { settings, source, docs }) && first
                    == FileAction::GetMeta
            } else {
                &&& middle == (FileIndexing::Preparing { settings, force: true })
                &&& first matches FileAction::Prepare { source: asked, existing, force }
                &&& asked == source && force && existing@ == indexer::document_map(docs@)
            }
        }),
        ({
            let same = mark matches Some(text) && text@ == text::decimal(
                settings.chunk_size as nat,
            ) + seq![':'] + text::decimal(settings.chunk_overlap as nat);
            &&& after == (FileIndexing::Preparing { settings, force: !same })
            &&& action matches FileAction::Prepare { source: asked, existing, force }
            &&& asked == source && force == !same && existing@ == indexer::document_map(docs@)
        }),
{
    indexer::law_mark_names_the_chunking(settings.chunk_size, settings.chunk_overlap);
}

/// A single file that was prepared is announced, written as a batch of its own,
/// and counted with its chunks; where everything had to be indexed again the index
/// is marked before the run completes.
pub proof fn law_single_file_is_written(
    settings: IndexSettings,
    force: bool,
    file: PendingFile,
    states: Seq<FileIndexing>,
    actions: Seq<FileAction>,
)
    requires
        states.len() == 4 && actions.len() == 3,
        states[0] == (FileIndexing::Preparing { settings, force }),
        file_steps(states[0], FileInput::Prepared(Some(file)), states[1], actions[0]),
        file_steps(states[1], FileInput::Sent(true), states[2], actions[1]),
        file_steps(states[2], FileInput::Flushed(Ok(Flushed::Stored)), states[3], actions[2]),
    ensures
        actions[0] matches FileAction::Send(IndexEvent::FileParsed { source_id, path, chunks })
            && source_id@ == file.path@ && path@ == file.path@ && chunks == file.chunks@.len(),
        actions[1] matches FileAction::Flush(files) && files@.len() == 1 && files@[0] == file,
        ({
            let stats = IndexStats {
                files_indexed: 1,
                chunks_indexed: file.chunks@.len() as usize,
                files_skipped: 0,
                files_removed: 0,
            };
            if force {
                &&& states[3] == (FileIndexing::UpdatingMeta { stats })
                &&& actions[2] matches FileAction::UpdateMeta { spec, mark }
                &&& spec == settings.embedding_spec
                &&& mark@ == text::decimal(settings.chunk_size as nat) + seq![':']
                    + text::decimal(settings.chunk_overlap as nat)
            } else {
                &&& states[3] == (FileIndexing::Completing { stats })
                &&& actions[2] == FileAction::Send(
                    IndexEvent::Complete {
                        files: 1,
                        chunks: stats.chunks_indexed,
                        files_skipped: 0,
                        files_removed: 0,
                    },
                )
            }
        }),
{
    indexer::law_mark_names_the_chunking(settings.chunk_size, settings.chunk_overlap);
    assert(file.chunks@.len() == file.chunks.len());
}

/// A single file that is left out counts as skipped, and nothing else.
pub proof fn law_single_file_is_skipped(
    before: FileIndexing,
    after: FileIndexing,
    action: FileAction,
)
    requires
        (before is Preparing && file_steps(before, FileInput::Prepared(None), after, action)) || (
        before is Reading && file_steps(before, FileInput::Read(Ok(None)), after, action)),
    ensures
        ({
            let stats = IndexStats {
                files_indexed: 0,
                chunks_indexed: 0,
                files_skipped: 1,
                files_removed: 0,
            };
            &&& before is Reading ==> action == FileAction::Return(Ok(stats))
            &&& before is Preparing ==> after == (FileIndexing::Completing { stats }) && action
                == FileAction::Send(
                IndexEvent::Complete { files: 0, chunks: 0, files_skipped: 1, files_removed: 0 },
            )
        }),
{
}

/// A single file is announced as one source and read from its path; the documents
/// of the index and its model are asked for, and what fails is what is returned.
pub proof fn law_single_file_runs_through(
    before: FileIndexing,
    input: FileInput,
    after: FileIndexing,
    action: FileAction,
)
    requires
        file_steps(before, input, after, action),
    ensures
        before matches FileIndexing::Ready { path, settings } ==> input is Start ==> after == (
        FileIndexing::AnnouncingScan { path, settings }) && action == FileAction::Send(
            IndexEvent::ScanStart { total_sources: 1 },
        ),
        before matches FileIndexing::AnnouncingScan { path, settings } ==> input == FileInput::Sent(
            true,
        ) ==> after == (FileIndexing::Reading { settings }) && action == (FileAction::Read { path }),
        before matches FileIndexing::Reading { settings } ==> (input matches FileInput::Read(
            Ok(Some(source)),
        ) ==> after == (FileIndexing::ListingDocuments { settings, source }) && action
            == FileAction::ListDocuments),
        before matches FileIndexing::ListingDocuments { settings, source } ==> (
        input matches FileInput::Documents(Ok(docs)) ==> after == (FileIndexing::CheckingModel {
            settings,
            source,
            docs,
        }) && action == FileAction::GetModel),
        before matches FileIndexing::UpdatingMeta { stats } ==> input == FileInput::Updated(Ok(()))
            ==> after == (FileIndexing::Completing { stats }) && action == FileAction::Send(
            IndexEvent::Complete {
                files: stats.files_indexed,
                chunks: stats.chunks_indexed,
                files_skipped: stats.files_skipped,
                files_removed: stats.files_removed,
            },
        ),
        before matches FileIndexing::Completing { stats } ==> input is Sent ==> action
            == FileAction::Return(Ok(stats)),
        input matches FileInput::Read(Err(e)) ==> before is Reading ==> action
            == FileAction::Return(Err(e)),
        input matches FileInput::Documents(Err(e)) ==> before is ListingDocuments ==> action
            == FileAction::Return(Err(e)),
        input matches FileInput::Model(Err(e)) ==> before is CheckingModel ==> action
            == FileAction::Return(Err(e)),
        input matches FileInput::Meta(Err(e)) ==> before is CheckingMeta ==> action
            == FileAction::Return(Err(e)),
        input matches FileInput::Flushed(Err(e)) ==> before is Flushing ==> action
            == FileAction::Return(Err(e)),
        input matches FileInput::Updated(Err(e)) ==> before is UpdatingMeta ==> action
            == FileAction::Return(Err(e)),
{
}

/// Several sources are indexed in turn, each with its own path, and what each has
/// indexed is reported under its own name and added up: the sums of all four counts
/// are what the end reports.
pub proof fn law_sources_add_up(
    todo: Vec<Source>,
    total: IndexStats,
    id: String,
    stats: IndexStats,
    after: SourceIndexing,
    action: SourceAction,
    next: SourceIndexing,
    then_action: SourceAction,
)
    requires
        source_steps(
            SourceIndexing::Indexing { todo, total, id },
            SourceInput::Indexed(Ok(stats)),
            after,
            action,
        ),
        source_steps(after, SourceInput::Sent(true), next, then_action),
        total.files_indexed + stats.files_indexed <= usize::MAX,
        total.files_skipped + stats.files_skipped <= usize::MAX,
        total.files_removed + stats.files_removed <= usize::MAX,
        total.chunks_indexed + stats.chunks_indexed <= usize::MAX,
    ensures
        action == SourceAction::Send(
            IndexEvent::SourceComplete { source_id: id, chunks: stats.chunks_indexed },
        ),
        todo@.len() > 0 ==> {
            &&& then_action == (SourceAction::Index { path: todo@.last().path })
            &&& next matches SourceIndexing::Indexing { todo: t, total: s, id: n }
            &&& t@ == todo@.drop_last() && n == todo@.last().id
            &&& s.files_indexed == total.files_indexed + stats.files_indexed
            &&& s.files_skipped == total.files_skipped + stats.files_skipped
            &&& s.files_removed == total.files_removed + stats.files_removed
            &&& s.chunks_indexed == total.chunks_indexed + stats.chunks_indexed
        },
        todo@.len() == 0 ==> {
            &&& next == SourceIndexing::Closing
            &&& then_action matches SourceAction::Send(
                IndexEvent::Complete { files, chunks, files_skipped, files_removed },
            )
            &&& files == total.files_indexed + stats.files_indexed
            &&& chunks == total.chunks_indexed + stats.chunks_indexed
            &&& files_skipped == total.files_skipped + stats.files_skipped
            &&& files_removed == total.files_removed + stats.files_removed
        },
{
}

/// Sources are taken up from the first on: it waits last. Where indexing one fails
/// the failure is reported in words, and no further one is indexed.
pub proof fn law_sources_start_and_fail(
    todo: Vec<Source>,
    total: IndexStats,
    id: String,
    e: DocqError,
    first: SourceIndexing,
    start: SourceAction,
    after: SourceIndexing,
    action: SourceAction,
)
    requires
        source_steps(SourceIndexing::Ready { todo, total }, SourceInput::Start, first, start),
        source_steps(
            SourceIndexing::Indexing { todo, total, id },
            SourceInput::Indexed(Err(e)),
            after,
            action,
        ),
    ensures
        todo@.len() > 0 ==> start == (SourceAction::Index { path: todo@.last().path }) && (
        first matches SourceIndexing::Indexing { todo: t, total: s, id: n } && t@
            == todo@.drop_last() && n == todo@.last().id && s == total),
        todo@.len() == 0 ==> first == SourceIndexing::Closing && start == SourceAction::Send(
            IndexEvent::Complete {
                files: total.files_indexed,
                chunks: total.chunks_indexed,
                files_skipped: total.files_skipped,
                files_removed: total.files_removed,
            },
        ),
        after == SourceIndexing::Closing,
        action matches SourceAction::Send(IndexEvent::Error { message }) && message@
            == e.described(),
{
}

/// Only the completion event sets the counts, all four; every other event leaves
/// them.
pub proof fn law_completion_sets_the_counts(stats: IndexStats, event: IndexEvent)
    ensures
        event matches IndexEvent::Complete { files, chunks, files_skipped, files_removed } ==> {
            let r = counts_after(stats, event);
            &&& r.files_indexed == files && r.chunks_indexed == chunks
            &&& r.files_skipped == files_skipped && r.files_removed == files_removed
        },
        !(event is Complete) ==> counts_after(stats, event) == stats,
{
}

/// Files that were handed back unwritten are not counted and stay pending, and the
/// run goes on with the next file; behind the last batch it ends with the counts as
/// they are.
pub proof fn law_unwritten_files_are_not_counted(
    progress: Progress,
    count: usize,
    chunks: usize,
    left: Vec<PendingFile>,
    after: DirectoryIndexing,
    action: DirectoryAction,
    end: DirectoryIndexing,
    last: DirectoryAction,
)
    requires
        directory_steps(
            DirectoryIndexing::Flushing { progress, count, chunks },
            DirectoryInput::Flushed(Ok(Flushed::Left(left))),
            after,
            action,
        ),
        directory_steps(
            DirectoryIndexing::FlushingRest { progress, count, chunks },
            DirectoryInput::Flushed(Ok(Flushed::Left(left))),
            end,
            last,
        ),
    ensures
        progress.todo@.len() > 0 ==> {
            &&& after matches DirectoryIndexing::AnnouncingFile { progress: p, file }
            &&& file == progress.todo@.last() && p.todo@ == progress.todo@.drop_last()
            &&& p.stats == progress.stats
            &&& p.pending == left && p.pending_chunks == 0
        },
        progress.force ==> end == (DirectoryIndexing::UpdatingMeta { stats: progress.stats }),
        !progress.force ==> end == (DirectoryIndexing::Completing { stats: progress.stats }),
{
    let p = choose|p: Progress|
        counted(progress, count, chunks, Flushed::Left(left), p) && #[trigger] files_go_on(
            p,
            after,
            action,
        );
    assert(p.stats == progress.stats);
}

} // verus!
