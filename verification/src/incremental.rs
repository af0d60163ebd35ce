//! What indexing a directory again comes to.
//!
//! A run of [`DirectoryIndexing`] is followed together with the files that it
//! reads and the documents that the store holds.

use vstd::prelude::*;

use crate::batch;
use crate::batch::OpView;
use crate::hash;
use crate::indexer;
use crate::indexer::{IndexStats, PendingFile};
use crate::indexing;
use crate::indexing::{
    DirectoryAction, DirectoryIndexing, DirectoryInput, Flushed, IndexSettings, Progress,
};
use crate::models::{ChunkCandidate, Document, ModelSpec, Timestamp};
use crate::retriever;
use crate::text;
use crate::traits::{Chunker, WordSegmenter};

verus! {

// ---- files and store ----

/// The files of a directory, and what the store holds.
pub struct World {
    /// The files that are listed, in order.
    pub listing: Seq<Seq<char>>,
    /// The texts of the files that have one.
    pub contents: Map<Seq<char>, Seq<char>>,
    /// The chunks that a text has.
    pub chunking: spec_fn(Seq<char>) -> Seq<ChunkCandidate>,
    /// The documents by id.
    pub docs: Map<Seq<char>, Document>,
    /// The paths of the documents.
    pub paths: Map<Seq<char>, Seq<char>>,
    /// The embedding model of the index.
    pub model: Option<ModelSpec>,
    /// The mark of the chunking of the index.
    pub mark: Option<Seq<char>>,
}

/// The document ids of the listed files.
pub open spec fn listed_ids(w: World) -> Seq<Seq<char>> {
    w.listing.map_values(|p: Seq<char>| hash::text_id(p))
}

/// Whether different listed files have different document ids.
pub open spec fn ids_differ(w: World) -> bool {
    forall|i: int, j: int|
        0 <= i < w.listing.len() && 0 <= j < w.listing.len() && hash::text_id(
            #[trigger] w.listing[i],
        ) == hash::text_id(#[trigger] w.listing[j]) ==> w.listing[i] == w.listing[j]
}

/// Whether a file has chunks.
pub open spec fn has_chunks(w: World, path: Seq<char>) -> bool {
    w.contents.contains_key(path) && (w.chunking)(w.contents[path]).len() > 0
}

/// The store with one more file in it.
pub open spec fn with_file(w: World, file: PendingFile) -> World {
    World {
        docs: w.docs.insert(file.doc.id@, file.doc),
        paths: w.paths.insert(file.doc.id@, file.path@),
        ..w
    }
}

/// The store with a batch of files in it.
pub open spec fn with_files(w: World, files: Seq<PendingFile>) -> World
    decreases files.len(),
{
    if files.len() == 0 {
        w
    } else {
        with_file(with_files(w, files.drop_last()), files.last())
    }
}

/// Whether `r` is what preparing the file `path` gives.
pub open spec fn is_outcome(
    w: World,
    path: Seq<char>,
    existing: Map<Seq<char>, Document>,
    force: bool,
    r: Option<PendingFile>,
) -> bool {
    if !has_chunks(w, path) || (!force && indexer::is_unchanged(existing, path, w.contents[path])) {
        r is None
    } else {
        r matches Some(file) && exists|words: Seq<Seq<char>>, now: Timestamp|
            #[trigger] indexer::is_prepared(
                file,
                path,
                w.contents[path],
                existing,
                (w.chunking)(w.contents[path]),
                words,
                now,
            )
    }
}

/// Whether `input` is what comes of `action` where nothing fails and the consumer
/// stays, and `after` what files and store are then.
pub open spec fn answers(
    w: World,
    action: DirectoryAction,
    input: DirectoryInput,
    after: World,
) -> bool {
    match (action, input) {
        (DirectoryAction::Send(_), DirectoryInput::Sent(true)) => after == w,
        (DirectoryAction::ListFiles { .. }, DirectoryInput::Files(Ok(files))) => {
            &&& after == w
            &&& text::views(files@) == w.listing
        },
        (DirectoryAction::ListDocuments, DirectoryInput::Documents(Ok(docs))) => {
            &&& after == w
            &&& indexer::document_map(docs@) == w.docs
        },
        (DirectoryAction::FetchPaths(ids), DirectoryInput::Paths(Ok(paths))) => {
            &&& after == w
            &&& forall|id: Seq<char>| #[trigger]
                retriever::path_map(paths@).contains_key(id) <==> text::views(ids@).contains(id)
                    && w.paths.contains_key(id)
            &&& forall|id: Seq<char>| #[trigger]
                retriever::path_map(paths@).contains_key(id) ==> retriever::path_map(paths@)[id]
                    == w.paths[id]
        },
        (DirectoryAction::Remove { doc_id }, DirectoryInput::Removed(Ok(_))) => {
            after == World {
                docs: w.docs.remove(doc_id@),
                paths: w.paths.remove(doc_id@),
                ..w
            }
        },
        (DirectoryAction::GetModel, DirectoryInput::Model(Ok(stored))) => {
            &&& after == w
            &&& stored == w.model
        },
        (DirectoryAction::GetMeta, DirectoryInput::Meta(Ok(stored))) => {
            &&& after == w
            &&& match stored {
                Some(mark) => w.mark == Some(mark@),
                None => w.mark is None,
            }
        },
        (
            DirectoryAction::Prepare { files, existing, force },
            DirectoryInput::Prepared(Ok(list)),
        ) => {
            &&& after == w
            &&& list@.len() == files@.len()
            &&& forall|i: int|
                0 <= i < list@.len() ==> is_outcome(
                    w,
                    files@[i]@,
                    existing@,
                    force,
                    #[trigger] list@[i],
                )
        },
        (DirectoryAction::Flush(files), DirectoryInput::Flushed(Ok(Flushed::Stored))) => {
            after == with_files(w, files@)
        },
        (DirectoryAction::UpdateMeta { spec, mark }, DirectoryInput::Updated(Ok(_))) => {
            after == World { model: Some(spec), mark: Some(mark@), ..w }
        },
        _ => false,
    }
}

/// Preparing a file gives such an outcome, with a chunker that gives the chunks
/// of [`World::chunking`].
pub proof fn law_preparing_is_an_outcome<C: Chunker + ?Sized, S: WordSegmenter + ?Sized>(
    w: World,
    path: Seq<char>,
    content: &str,
    existing: Map<Seq<char>, Document>,
    force: bool,
    chunker: &C,
    segmenter: &S,
    candidates: Vec<ChunkCandidate>,
    words: Seq<String>,
    now: Timestamp,
    r: Option<PendingFile>,
)
    requires
        w.contents.contains_key(path),
        w.contents[path] == content@,
        candidates@ == (w.chunking)(content@),
        indexer::may_prepare(
            r,
            path,
            content,
            existing,
            force,
            chunker,
            segmenter,
            candidates,
            words,
            now,
        ),
    ensures
        is_outcome(w, path, existing, force, r),
{
    if let Some(file) = r {
        assert(indexer::is_prepared(
            file,
            path,
            content@,
            existing,
            candidates@,
            text::views(words),
            now,
        ));
    }
}

/// The documents and paths of the store after one operation.
pub open spec fn after_op(w: World, op: OpView) -> World {
    match op {
        OpView::AddDocument(doc) => World { docs: w.docs.insert(doc.id@, doc), ..w },
        OpView::SetDocumentPath { doc_id, path } => World {
            paths: w.paths.insert(doc_id, path),
            ..w
        },
        OpView::DeleteDocument { doc_id } => World {
            docs: w.docs.remove(doc_id),
            paths: w.paths.remove(doc_id),
            ..w
        },
        _ => w,
    }
}

/// The documents and paths of the store after the operations in turn.
pub open spec fn after_ops(w: World, ops: Seq<OpView>) -> World
    decreases ops.len(),
{
    if ops.len() == 0 {
        w
    } else {
        after_op(after_ops(w, ops.drop_last()), ops.last())
    }
}

proof fn lemma_after_ops(w: World, a: Seq<OpView>, b: Seq<OpView>)
    ensures
        after_ops(w, a + b) == after_ops(after_ops(w, a), b),
    decreases b.len(),
{
    if b.len() == 0 {
        assert(a + b =~= a);
    } else {
        assert((a + b).drop_last() =~= a + b.drop_last());
        assert((a + b).last() == b.last());
        lemma_after_ops(w, a, b.drop_last());
    }
}

proof fn lemma_file_ops(w: World, file: PendingFile, embeddings: Seq<Seq<u32>>)
    ensures
        after_ops(w, batch::file_ops(file, embeddings)) == with_file(w, file),
{
    reveal_with_fuel(after_ops, 2);
    let id = file.doc.id@;
    let ids = batch::chunk_ids_of(file.chunks@);
    let cleared = if file.is_update {
        seq![OpView::DeleteChunksByDoc { doc_id: id }]
    } else {
        Seq::empty()
    };
    let s1 = cleared.push(OpView::AddDocument(file.doc));
    let s2 = s1.push(OpView::SetDocumentPath { doc_id: id, path: file.path@ });
    let s3 = s2.push(OpView::AddChunks(file.chunks@));
    let s4 = s3.push(OpView::AddChunkDocuments { chunk_ids: ids, doc_id: id });
    let s5 = s4.push(OpView::AddVectors { chunk_ids: ids, embeddings });
    let s6 = s5.push(
        OpView::AddFtsChunks { chunk_ids: ids, texts: text::views(file.tokenized_texts@) },
    );
    assert(s6 =~= batch::file_ops(file, embeddings));
    assert(s6.drop_last() =~= s5 && s5.drop_last() =~= s4 && s4.drop_last() =~= s3);
    assert(s3.drop_last() =~= s2 && s2.drop_last() =~= s1 && s1.drop_last() =~= cleared);
    assert(after_ops(w, cleared) == w) by {
        assert(cleared.len() <= 1);
        if cleared.len() == 1 {
            assert(cleared.drop_last() =~= Seq::empty());
        }
    }
    assert(after_ops(w, s2) == with_file(w, file));
    assert(after_ops(w, s3) == after_ops(w, s2));
    assert(after_ops(w, s4) == after_ops(w, s3));
    assert(after_ops(w, s5) == after_ops(w, s4));
    assert(after_ops(w, s6) == after_ops(w, s5));
}

proof fn lemma_first_ops(w: World, files: Seq<PendingFile>, embeddings: Seq<Seq<u32>>, n: int)
    requires
        0 <= n <= files.len(),
    ensures
        after_ops(w, batch::first_ops(files, embeddings, n)) == with_files(w, files.take(n)),
    decreases n,
{
    reveal_with_fuel(after_ops, 3);
    if n == 0 {
        assert(seq![OpView::Begin].drop_last() =~= Seq::<OpView>::empty());
        assert(files.take(0) =~= Seq::empty());
    } else {
        let head = batch::first_ops(files, embeddings, n - 1);
        let file = files[n - 1];
        let more = batch::file_ops(file, batch::embeddings_of(files, embeddings, n - 1));
        let ends = seq![OpView::Commit, OpView::Begin];
        lemma_first_ops(w, files, embeddings, n - 1);
        lemma_after_ops(w, head, more);
        lemma_file_ops(
            with_files(w, files.take(n - 1)),
            file,
            batch::embeddings_of(files, embeddings, n - 1),
        );
        lemma_after_ops(w, head + more, ends);
        assert(ends.drop_last() =~= seq![OpView::Commit]);
        assert(ends.drop_last().drop_last() =~= Seq::<OpView>::empty());
        assert(files.take(n).drop_last() =~= files.take(n - 1));
        assert(files.take(n).last() == file);
    }
}

/// Performing the plan for a batch stores its files.
pub proof fn law_batch_stores_files(
    w: World,
    files: Seq<PendingFile>,
    embeddings: Seq<Seq<u32>>,
)
    ensures
        after_ops(w, batch::batch_ops(files, embeddings)) == with_files(w, files),
{
    let n = files.len() as int;
    let ops = batch::first_ops(files, embeddings, n);
    lemma_first_ops(w, files, embeddings, n);
    assert(files.take(n) =~= files);
    assert(ops.push(OpView::Commit).drop_last() =~= ops);
}

/// Whether the action changes what the store holds.
pub open spec fn writes(action: DirectoryAction) -> bool {
    action is Remove || action is Flush || action is UpdateMeta
}

// ---- runs ----

/// A directory run, step by step: step `k` goes from `states[k]` to
/// `states[k + 1]` on `inputs[k]`, with `worlds[k]` around it, and wants
/// `actions[k]` done.
pub struct DirectoryRun {
    pub states: Seq<DirectoryIndexing>,
    pub inputs: Seq<DirectoryInput>,
    pub actions: Seq<DirectoryAction>,
    pub worlds: Seq<World>,
}

/// Whether `run` is a run over `dir` with the given settings.
pub open spec fn is_run(run: DirectoryRun, dir: Seq<char>, settings: IndexSettings) -> bool {
    let n = run.inputs.len();
    &&& n > 0
    &&& run.states.len() == n + 1
    &&& run.actions.len() == n
    &&& run.worlds.len() == n
    &&& run.states[0] matches DirectoryIndexing::Ready { dir: d, settings: s }
    &&& d@ == dir
    &&& s == settings
    &&& run.inputs[0] == DirectoryInput::Start
    &&& forall|k: int|
        0 <= k < n ==> indexing::directory_steps(
            run.states[k],
            #[trigger] run.inputs[k],
            run.states[k + 1],
            run.actions[k],
        )
    &&& forall|k: int|
        0 < k < n ==> answers(
            run.worlds[k - 1],
            run.actions[k - 1],
            #[trigger] run.inputs[k],
            run.worlds[k],
        )
}

/// Whether the run ends with the given counts.
pub open spec fn completes(run: DirectoryRun, stats: IndexStats) -> bool {
    run.actions.last() == DirectoryAction::Return(Ok(stats))
}

// ---- what a run leaves behind ----

/// Whether every document in `dir` belongs to a listed file.
pub open spec fn only_listed(w: World, dir: Seq<char>) -> bool {
    forall|id: Seq<char>|
        w.docs.contains_key(id) && #[trigger] indexer::is_under(w.paths, id, dir) ==> listed_ids(
            w,
        ).contains(id)
}

/// Whether the store is marked with the model and the chunking of `settings`.
pub open spec fn is_marked(w: World, settings: IndexSettings) -> bool {
    &&& !indexer::is_other_model(w.model, settings.embedding_spec)
    &&& w.mark == Some(indexer::indexing_mark(settings.chunk_size, settings.chunk_overlap))
}

/// Whether the store holds the file `path` as it is.
pub open spec fn is_stored(w: World, path: Seq<char>) -> bool {
    indexer::is_unchanged(w.docs, path, w.contents[path])
}

/// Whether the store holds every listed file that has chunks.
pub open spec fn all_stored(w: World) -> bool {
    forall|i: int|
        0 <= i < w.listing.len() && has_chunks(w, #[trigger] w.listing[i]) ==> is_stored(
            w,
            w.listing[i],
        )
}

/// Whether the store is up to date with the files in `dir`.
pub open spec fn is_settled(w: World, dir: Seq<char>, settings: IndexSettings) -> bool {
    only_listed(w, dir) && is_marked(w, settings) && all_stored(w)
}

/// Whether the files are the same, and chunked in the same way.
spec fn same_files(a: World, b: World) -> bool {
    a.listing == b.listing && a.contents == b.contents && a.chunking == b.chunking
}

/// Whether `file` is the file `path` as it is.
spec fn carries(w: World, file: PendingFile, path: Seq<char>) -> bool {
    &&& w.contents.contains_key(path)
    &&& file.path@ == path
    &&& file.doc.id@ == hash::text_id(path)
    &&& file.doc.content_hash@ == hash::text_id(w.contents[path])
}

/// Whether `file` is some listed file.
spec fn is_listed(w: World, file: PendingFile) -> bool {
    exists|i: int| 0 <= i < w.listing.len() && carries(w, file, #[trigger] w.listing[i])
}

spec fn all_listed(w: World, files: Seq<PendingFile>) -> bool {
    forall|k: int| 0 <= k < files.len() ==> is_listed(w, #[trigger] files[k])
}

/// Whether one of the files is the file `path`.
spec fn carried(w: World, files: Seq<PendingFile>, path: Seq<char>) -> bool {
    exists|k: int| 0 <= k < files.len() && carries(w, #[trigger] files[k], path)
}

/// Whether each listed file that has chunks is stored or among the given ones.
spec fn stored_or_carried(w: World, files: Seq<PendingFile>) -> bool {
    forall|i: int|
        0 <= i < w.listing.len() && has_chunks(w, #[trigger] w.listing[i]) ==> is_stored(
            w,
            w.listing[i],
        ) || carried(w, files, w.listing[i])
}

/// Whether the documents of listed files in `known` are still in the store.
spec fn still_there(w: World, known: Map<Seq<char>, Document>) -> bool {
    forall|id: Seq<char>|
        listed_ids(w).contains(id) && #[trigger] known.contains_key(id) ==> w.docs.contains_key(id)
            && w.docs[id] == known[id]
}

proof fn lemma_listed_id(w: World, i: int)
    requires
        0 <= i < w.listing.len(),
    ensures
        listed_ids(w).contains(hash::text_id(w.listing[i])),
{
    assert(listed_ids(w)[i] == hash::text_id(w.listing[i]));
}

/// Storing a listed file makes it stored, and leaves what was settled.
proof fn lemma_with_file(w: World, file: PendingFile, dir: Seq<char>)
    requires
        ids_differ(w),
        is_listed(w, file),
        only_listed(w, dir),
    ensures
        same_files(with_file(w, file), w),
        only_listed(with_file(w, file), dir),
        forall|i: int|
            0 <= i < w.listing.len() && w.contents.contains_key(#[trigger] w.listing[i]) && (is_stored(
                w,
                w.listing[i],
            ) || carries(w, file, w.listing[i])) ==> is_stored(with_file(w, file), w.listing[i]),
{
    let after = with_file(w, file);
    let at = choose|i: int| 0 <= i < w.listing.len() && carries(w, file, #[trigger] w.listing[i]);
    lemma_listed_id(w, at);
    assert(listed_ids(after) == listed_ids(w));
    assert forall|id: Seq<char>|
        after.docs.contains_key(id) && #[trigger] indexer::is_under(after.paths, id, dir) implies listed_ids(
        after,
    ).contains(id) by {
        if id != file.doc.id@ {
            assert(indexer::is_under(w.paths, id, dir));
        }
    }
    assert forall|i: int|
        0 <= i < w.listing.len() && w.contents.contains_key(#[trigger] w.listing[i]) && (is_stored(
            w,
            w.listing[i],
        ) || carries(w, file, w.listing[i])) implies is_stored(after, w.listing[i]) by {
        if hash::text_id(w.listing[i]) == file.doc.id@ {
            assert(w.listing[i] == w.listing[at]);
        }
    }
}

proof fn lemma_with_files(w: World, files: Seq<PendingFile>, dir: Seq<char>)
    requires
        ids_differ(w),
        all_listed(w, files),
        only_listed(w, dir),
    ensures
        same_files(with_files(w, files), w),
        with_files(w, files).model == w.model,
        with_files(w, files).mark == w.mark,
        only_listed(with_files(w, files), dir),
        forall|i: int|
            0 <= i < w.listing.len() && w.contents.contains_key(#[trigger] w.listing[i]) && (is_stored(
                w,
                w.listing[i],
            ) || carried(w, files, w.listing[i])) ==> is_stored(
                with_files(w, files),
                w.listing[i],
            ),
    decreases files.len(),
{
    if files.len() > 0 {
        let front = files.drop_last();
        let v = with_files(w, front);
        assert forall|k: int| 0 <= k < front.len() implies is_listed(w, #[trigger] front[k]) by {
            assert(front[k] == files[k]);
        }
        lemma_with_files(w, front, dir);
        let last = files.last();
        assert(is_listed(w, files[files.len() - 1]));
        let at = choose|i: int|
            0 <= i < w.listing.len() && carries(w, last, #[trigger] w.listing[i]);
        assert(carries(v, last, v.listing[at]));
        lemma_with_file(v, last, dir);
        assert forall|i: int|
            0 <= i < w.listing.len() && w.contents.contains_key(#[trigger] w.listing[i]) && (is_stored(
                w,
                w.listing[i],
            ) || carried(w, files, w.listing[i])) implies is_stored(
            with_files(w, files),
            w.listing[i],
        ) by {
            assert(v.listing[i] == w.listing[i]);
            if !is_stored(w, w.listing[i]) {
                let k = choose|k: int|
                    0 <= k < files.len() && carries(w, #[trigger] files[k], w.listing[i]);
                if k < front.len() {
                    assert(front[k] == files[k]);
                    assert(carried(w, front, w.listing[i]));
                } else {
                    assert(carries(v, last, v.listing[i]));
                }
            }
        }
    }
}

// ---- a run settles the store ----

/// What holds where a run has prepared its files, and `files` are still to be
/// stored.
spec fn is_storing(
    w: World,
    dir: Seq<char>,
    settings: IndexSettings,
    force: bool,
    files: Seq<PendingFile>,
) -> bool {
    &&& only_listed(w, dir)
    &&& !force ==> is_marked(w, settings)
    &&& all_listed(w, files)
    &&& stored_or_carried(w, files)
}

/// What holds of a run after each step, before its action is performed.
spec fn settles(
    w: World,
    dir: Seq<char>,
    settings: IndexSettings,
    state: DirectoryIndexing,
    action: DirectoryAction,
) -> bool {
    &&& w.listing.len() <= usize::MAX
    &&& indexing::adds_up(state, w.listing.len() as usize)
    &&& match state {
        DirectoryIndexing::Ready { .. } => false,
        DirectoryIndexing::ListingFiles { dir: d, settings: s } => {
            d@ == dir && s == settings && action is ListFiles
        },
        DirectoryIndexing::AnnouncingScan { dir: d, settings: s, files } => {
            d@ == dir && s == settings && text::views(files@) == w.listing && action is Send
        },
        DirectoryIndexing::ListingDocuments { dir: d, settings: s, files } => {
            d@ == dir && s == settings && text::views(files@) == w.listing && action
                is ListDocuments
        },
        DirectoryIndexing::FetchingPaths { dir: d, settings: s, files, docs } => {
            &&& d@ == dir && s == settings && text::views(files@) == w.listing
            &&& indexer::document_map(docs@) == w.docs
            &&& action matches DirectoryAction::FetchPaths(ids)
            &&& text::views(ids@) == indexing::ids_of_documents(docs@)
        },
        DirectoryIndexing::Sweeping { settings: s, files, docs, gone, removed } => {
            &&& s == settings && text::views(files@) == w.listing
            &&& still_there(w, indexer::document_map(docs@))
            &&& is_sweeping(w, dir, text::views(gone@), removed as int)
            &&& action matches DirectoryAction::Remove { doc_id }
            &&& doc_id@ == text::views(gone@)[removed as int]
        },
        DirectoryIndexing::CheckingModel { settings: s, files, docs, .. } => {
            &&& s == settings && text::views(files@) == w.listing
            &&& still_there(w, indexer::document_map(docs@))
            &&& only_listed(w, dir)
            &&& action is GetModel
        },
        DirectoryIndexing::CheckingMeta { settings: s, files, docs, .. } => {
            &&& s == settings && text::views(files@) == w.listing
            &&& still_there(w, indexer::document_map(docs@))
            &&& only_listed(w, dir)
            &&& !indexer::is_other_model(w.model, settings.embedding_spec)
            &&& action is GetMeta
        },
        DirectoryIndexing::Preparing { settings: s, force, .. } => {
            &&& s == settings
            &&& only_listed(w, dir)
            &&& !force ==> is_marked(w, settings)
            &&& action matches DirectoryAction::Prepare { files, existing, force: f }
            &&& f == force && text::views(files@) == w.listing
            &&& still_there(w, existing@)
        },
        DirectoryIndexing::AnnouncingFile { progress, file } => {
            &&& progress.settings == settings
            &&& is_storing(
                w,
                dir,
                settings,
                progress.force,
                progress.todo@ + progress.pending@ + seq![file],
            )
            &&& action is Send
        },
        DirectoryIndexing::Flushing { progress, .. } => {
            &&& progress.settings == settings
            &&& action matches DirectoryAction::Flush(files)
            &&& is_storing(w, dir, settings, progress.force, progress.todo@ + files@)
        },
        DirectoryIndexing::FlushingRest { progress, .. } => {
            &&& progress.settings == settings
            &&& action matches DirectoryAction::Flush(files)
            &&& is_storing(w, dir, settings, progress.force, files@)
        },
        DirectoryIndexing::UpdatingMeta { .. } => {
            &&& only_listed(w, dir)
            &&& all_stored(w)
            &&& action matches DirectoryAction::UpdateMeta { spec, mark }
            &&& spec == settings.embedding_spec
            &&& mark@ == indexer::indexing_mark(settings.chunk_size, settings.chunk_overlap)
        },
        DirectoryIndexing::Completing { .. } => {
            is_settled(w, dir, settings) && action is Send
        },
        DirectoryIndexing::Done => {
            action matches DirectoryAction::Return(Ok(stats)) && is_settled(w, dir, settings)
                && stats.files_indexed + stats.files_skipped == w.listing.len()
        },
    }
}

/// What holds while documents are removed: those that remain are of files that
/// are not listed, and are all that the store holds of such files.
spec fn is_sweeping(w: World, dir: Seq<char>, gone: Seq<Seq<char>>, removed: int) -> bool {
    &&& 0 <= removed < gone.len()
    &&& forall|k: int| 0 <= k < gone.len() ==> !listed_ids(w).contains(#[trigger] gone[k])
    &&& forall|id: Seq<char>|
        w.docs.contains_key(id) && #[trigger] indexer::is_under(w.paths, id, dir) ==> listed_ids(
            w,
        ).contains(id) || gone.skip(removed).contains(id)
}

proof fn lemma_listed_paths(w: World, files: Seq<String>)
    requires
        text::views(files) == w.listing,
    ensures
        indexing::ids_of_paths(files) == listed_ids(w),
        files.len() == w.listing.len(),
{
    assert(text::views(files).len() == files.len());
    assert forall|i: int| 0 <= i < files.len() implies indexing::ids_of_paths(files)[i]
        == listed_ids(w)[i] by {
        assert(text::views(files)[i] == files[i]@);
    }
    assert(indexing::ids_of_paths(files) =~= listed_ids(w));
}

proof fn lemma_document_map(docs: Seq<Document>, id: Seq<char>)
    ensures
        indexer::document_map(docs).contains_key(id) <==> exists|i: int|
            0 <= i < docs.len() && (#[trigger] docs[i]).id@ == id,
        indexer::document_map(docs).contains_key(id) <==> indexing::ids_of_documents(docs).contains(
            id,
        ),
    decreases docs.len(),
{
    let ids = indexing::ids_of_documents(docs);
    if docs.len() > 0 {
        let front = docs.drop_last();
        lemma_document_map(front, id);
        if indexer::document_map(docs).contains_key(id) {
            if docs.last().id@ == id {
                assert(docs[docs.len() - 1].id@ == id);
                assert(ids[docs.len() - 1] == id);
            } else {
                let i = choose|i: int| 0 <= i < front.len() && (#[trigger] front[i]).id@ == id;
                assert(docs[i].id@ == id);
                assert(ids[i] == id);
            }
        }
        if exists|i: int| 0 <= i < docs.len() && (#[trigger] docs[i]).id@ == id {
            let i = choose|i: int| 0 <= i < docs.len() && (#[trigger] docs[i]).id@ == id;
            if i < front.len() {
                assert(front[i].id@ == id);
            }
        }
        if ids.contains(id) {
            let i = choose|i: int| 0 <= i < ids.len() && ids[i] == id;
            assert(docs[i].id@ == id);
        }
    }
}

/// After the paths are known, what is gone is what a sweep has to remove.
proof fn lemma_gone(
    w: World,
    dir: Seq<char>,
    docs: Seq<Document>,
    paths: Map<Seq<char>, Seq<char>>,
)
    requires
        indexer::document_map(docs) == w.docs,
        forall|id: Seq<char>| #[trigger]
            paths.contains_key(id) <==> indexing::ids_of_documents(docs).contains(id)
                && w.paths.contains_key(id),
        forall|id: Seq<char>| #[trigger] paths.contains_key(id) ==> paths[id] == w.paths[id],
    ensures
        ({
            let gone = indexer::gone_documents(docs, listed_ids(w), paths, dir);
            &&& forall|k: int|
                0 <= k < gone.len() ==> !listed_ids(w).contains(#[trigger] gone[k])
                    && w.docs.contains_key(gone[k]) && indexer::is_under(w.paths, gone[k], dir)
            &&& forall|id: Seq<char>|
                w.docs.contains_key(id) && #[trigger] indexer::is_under(w.paths, id, dir)
                    ==> listed_ids(w).contains(id) || gone.contains(id)
        }),
{
    let ids = listed_ids(w);
    let gone = indexer::gone_documents(docs, ids, paths, dir);
    assert forall|k: int| 0 <= k < gone.len() implies !ids.contains(#[trigger] gone[k])
        && w.docs.contains_key(gone[k]) && indexer::is_under(w.paths, gone[k], dir) by {
        indexer::law_only_gone_documents(docs, ids, paths, dir, k);
        lemma_document_map(docs, gone[k]);
    }
    assert forall|id: Seq<char>|
        w.docs.contains_key(id) && #[trigger] indexer::is_under(w.paths, id, dir) implies ids.contains(
        id,
    ) || gone.contains(id) by {
        lemma_document_map(docs, id);
        let i = choose|i: int| 0 <= i < docs.len() && (#[trigger] docs[i]).id@ == id;
        assert(paths.contains_key(id));
        if !ids.contains(id) {
            indexer::law_all_gone_documents(docs, ids, paths, dir, i);
        }
    }
}

proof fn lemma_sweep_goes_on(
    w: World,
    dir: Seq<char>,
    settings: IndexSettings,
    files: Vec<String>,
    docs: Vec<Document>,
    gone: Seq<Seq<char>>,
    removed: int,
    state: DirectoryIndexing,
    action: DirectoryAction,
)
    requires
        w.listing.len() <= usize::MAX,
        text::views(files@) == w.listing,
        still_there(w, indexer::document_map(docs@)),
        0 <= removed <= gone.len(),
        forall|k: int| 0 <= k < gone.len() ==> !listed_ids(w).contains(#[trigger] gone[k]),
        forall|id: Seq<char>|
            w.docs.contains_key(id) && #[trigger] indexer::is_under(w.paths, id, dir)
                ==> listed_ids(w).contains(id) || gone.skip(removed).contains(id),
        indexing::sweep_goes_on(settings, files, docs, gone, removed, state, action),
    ensures
        settles(w, dir, settings, state, action),
{
    lemma_listed_paths(w, files@);
    if removed == gone.len() {
        assert(gone.skip(removed).len() == 0);
    }
}

proof fn lemma_finish_goes_on(
    w: World,
    dir: Seq<char>,
    settings: IndexSettings,
    force: bool,
    stats: IndexStats,
    state: DirectoryIndexing,
    action: DirectoryAction,
)
    requires
        w.listing.len() <= usize::MAX,
        stats.files_indexed + stats.files_skipped == w.listing.len(),
        is_storing(w, dir, settings, force, Seq::empty()),
        indexing::finish_goes_on(settings, force, stats, state, action),
    ensures
        settles(w, dir, settings, state, action),
{
    assert(all_stored(w)) by {
        assert forall|i: int| 0 <= i < w.listing.len() && has_chunks(w, #[trigger] w.listing[i]) implies is_stored(
            w,
            w.listing[i],
        ) by {
            assert(!carried(w, Seq::empty(), w.listing[i]));
        }
    }
}

/// Files may be given in another order.
proof fn lemma_storing_again(
    w: World,
    dir: Seq<char>,
    settings: IndexSettings,
    force: bool,
    files: Seq<PendingFile>,
    again: Seq<PendingFile>,
)
    requires
        is_storing(w, dir, settings, force, files),
        forall|f: PendingFile| #[trigger] files.contains(f) <==> again.contains(f),
    ensures
        is_storing(w, dir, settings, force, again),
{
    assert forall|k: int| 0 <= k < again.len() implies is_listed(w, #[trigger] again[k]) by {
        assert(again.contains(again[k]));
        assert(files.contains(again[k]));
    }
    assert forall|i: int|
        0 <= i < w.listing.len() && has_chunks(w, #[trigger] w.listing[i]) && !is_stored(
            w,
            w.listing[i],
        ) implies carried(w, again, w.listing[i]) by {
        let k = choose|k: int| 0 <= k < files.len() && carries(w, #[trigger] files[k], w.listing[i]);
        assert(files.contains(files[k]));
        assert(again.contains(files[k]));
        let j = choose|j: int| 0 <= j < again.len() && again[j] == files[k];
        assert(carries(w, again[j], w.listing[i]));
    }
}

proof fn lemma_files_go_on(
    w: World,
    dir: Seq<char>,
    settings: IndexSettings,
    progress: Progress,
    state: DirectoryIndexing,
    action: DirectoryAction,
)
    requires
        w.listing.len() <= usize::MAX,
        progress.settings == settings,
        is_storing(w, dir, settings, progress.force, progress.todo@ + progress.pending@),
        indexing::files_go_on(progress, state, action),
        indexing::adds_up(state, w.listing.len() as usize),
    ensures
        settles(w, dir, settings, state, action),
{
    let files = progress.todo@ + progress.pending@;
    if progress.todo@.len() > 0 {
        let file = progress.todo@.last();
        let front = progress.todo@.drop_last();
        let again = front + progress.pending@ + seq![file];
        lemma_moved(front, progress.pending@, file);
        assert(front.push(file) =~= progress.todo@);
        lemma_storing_again(w, dir, settings, progress.force, files, again);
    } else if progress.pending@.len() > 0 {
        assert(files =~= progress.pending@);
    } else {
        assert(files =~= Seq::empty());
        let stats = IndexStats {
            files_skipped: indexing::floored_rest(progress.total, progress.stats.files_indexed, 0),
            ..progress.stats
        };
        lemma_finish_goes_on(w, dir, settings, progress.force, stats, state, action);
    }
}

proof fn lemma_moved(a: Seq<PendingFile>, b: Seq<PendingFile>, x: PendingFile)
    ensures
        forall|f: PendingFile| #[trigger] (a.push(x) + b).contains(f) <==> (a + b + seq![x]).contains(f),
{
    let s = a.push(x) + b;
    let t = a + b + seq![x];
    let n = a.len() as int;
    assert forall|f: PendingFile| #[trigger] s.contains(f) <==> t.contains(f) by {
        if s.contains(f) {
            let k = choose|k: int| 0 <= k < s.len() && s[k] == f;
            if k < n {
                assert(t[k] == f);
            } else if k == n {
                assert(t[t.len() - 1] == f);
            } else {
                assert(t[k - 1] == f);
            }
        }
        if t.contains(f) {
            let k = choose|k: int| 0 <= k < t.len() && t[k] == f;
            if k < n {
                assert(s[k] == f);
            } else if k == t.len() - 1 {
                assert(s[n] == f);
            } else {
                assert(s[k + 1] == f);
            }
        }
    }
}

proof fn lemma_kept(list: Seq<Option<PendingFile>>, f: PendingFile)
    ensures
        indexing::kept(list).contains(f) <==> list.contains(Some(f)),
    decreases list.len(),
{
    if list.len() > 0 {
        let front = list.drop_last();
        let (all, before) = (indexing::kept(list), indexing::kept(front));
        lemma_kept(front, f);
        if all.contains(f) {
            let k = choose|k: int| 0 <= k < all.len() && all[k] == f;
            if k < before.len() {
                assert(before[k] == f);
                assert(before.contains(f));
                let i = choose|i: int| 0 <= i < front.len() && front[i] == Some(f);
                assert(list[i] == Some(f));
            } else {
                assert(list[list.len() - 1] == Some(f));
            }
        }
        if list.contains(Some(f)) {
            let i = choose|i: int| 0 <= i < list.len() && list[i] == Some(f);
            if i < front.len() {
                assert(front[i] == Some(f));
                assert(front.contains(Some(f)));
                let k = choose|k: int| 0 <= k < before.len() && before[k] == f;
                assert(all[k] == f);
            } else {
                assert(all[all.len() - 1] == f);
            }
        }
    }
}

/// What was prepared is all that is not stored yet.
proof fn lemma_prepared(
    w: World,
    dir: Seq<char>,
    settings: IndexSettings,
    files: Seq<String>,
    existing: Map<Seq<char>, Document>,
    force: bool,
    list: Seq<Option<PendingFile>>,
)
    requires
        text::views(files) == w.listing,
        only_listed(w, dir),
        !force ==> is_marked(w, settings),
        still_there(w, existing),
        list.len() == files.len(),
        forall|i: int|
            0 <= i < list.len() ==> is_outcome(w, files[i]@, existing, force, #[trigger] list[i]),
    ensures
        is_storing(w, dir, settings, force, indexing::kept(list)),
{
    let todo = indexing::kept(list);
    lemma_listed_paths(w, files);
    assert forall|i: int| 0 <= i < list.len() && #[trigger] list[i] is Some implies carries(
        w,
        list[i]->0,
        w.listing[i],
    ) by {
        assert(w.listing[i] == files[i]@);
    }
    assert forall|k: int| 0 <= k < todo.len() implies is_listed(w, #[trigger] todo[k]) by {
        assert(todo.contains(todo[k]));
        lemma_kept(list, todo[k]);
        let i = choose|i: int| 0 <= i < list.len() && list[i] == Some(todo[k]);
        assert(carries(w, list[i]->0, w.listing[i]));
    }
    assert forall|i: int|
        0 <= i < w.listing.len() && has_chunks(w, #[trigger] w.listing[i]) && !is_stored(
            w,
            w.listing[i],
        ) implies carried(w, todo, w.listing[i]) by {
        assert(w.listing[i] == files[i]@);
        lemma_listed_id(w, i);
        assert(is_outcome(w, files[i]@, existing, force, list[i]));
        assert(list[i] is Some);
        let f = list[i]->0;
        lemma_kept(list, f);
        assert(list.contains(Some(f)));
        let k = choose|k: int| 0 <= k < todo.len() && todo[k] == f;
        assert(carries(w, todo[k], w.listing[i]));
    }
}

proof fn lemma_reversed(a: Seq<PendingFile>, b: Seq<PendingFile>)
    requires
        b == a.reverse(),
    ensures
        forall|f: PendingFile| #[trigger] a.contains(f) <==> b.contains(f),
{
    assert forall|f: PendingFile| #[trigger] a.contains(f) <==> b.contains(f) by {
        if a.contains(f) {
            let k = choose|k: int| 0 <= k < a.len() && a[k] == f;
            assert(b[a.len() - 1 - k] == f);
        }
        if b.contains(f) {
            let k = choose|k: int| 0 <= k < b.len() && b[k] == f;
            assert(a[a.len() - 1 - k] == f);
        }
    }
}

/// After the files `stored` of `rest + stored` were stored, `rest` is to be
/// stored still.
proof fn lemma_flushed(
    w: World,
    dir: Seq<char>,
    settings: IndexSettings,
    force: bool,
    rest: Seq<PendingFile>,
    stored: Seq<PendingFile>,
)
    requires
        ids_differ(w),
        is_storing(w, dir, settings, force, rest + stored),
    ensures
        is_storing(with_files(w, stored), dir, settings, force, rest),
        same_files(with_files(w, stored), w),
{
    let files = rest + stored;
    let after = with_files(w, stored);
    assert forall|k: int| 0 <= k < stored.len() implies is_listed(w, #[trigger] stored[k]) by {
        assert(files[rest.len() + k] == stored[k]);
    }
    lemma_with_files(w, stored, dir);
    assert forall|k: int| 0 <= k < rest.len() implies is_listed(after, #[trigger] rest[k]) by {
        assert(files[k] == rest[k]);
        assert(is_listed(w, files[k]));
        let i = choose|i: int| 0 <= i < w.listing.len() && carries(w, rest[k], #[trigger] w.listing[i]);
        assert(carries(after, rest[k], after.listing[i]));
    }
    assert forall|i: int|
        0 <= i < after.listing.len() && has_chunks(after, #[trigger] after.listing[i]) && !is_stored(
            after,
            after.listing[i],
        ) implies carried(after, rest, after.listing[i]) by {
        let path = w.listing[i];
        assert(after.listing[i] == path);
        assert(has_chunks(w, path));
        assert(w.contents.contains_key(w.listing[i]));
        assert(!is_stored(w, path) && !carried(w, stored, path));
        let k = choose|k: int| 0 <= k < files.len() && carries(w, #[trigger] files[k], path);
        if k >= rest.len() {
            assert(stored[k - rest.len()] == files[k]);
            assert(carries(w, stored[k - rest.len()], path));
        }
        assert(carries(after, rest[k], path));
    }
}

/// Each step keeps what holds of a run.
#[verifier::rlimit(40)]
proof fn lemma_settles_on(
    w: World,
    dir: Seq<char>,
    settings: IndexSettings,
    state: DirectoryIndexing,
    action: DirectoryAction,
    input: DirectoryInput,
    after: World,
    next: DirectoryIndexing,
    wanted: DirectoryAction,
)
    requires
        ids_differ(w),
        settles(w, dir, settings, state, action),
        answers(w, action, input, after),
        indexing::directory_steps(state, input, next, wanted),
    ensures
        settles(after, dir, settings, next, wanted),
        same_files(after, w),
{
    let total = w.listing.len() as usize;
    if let DirectoryInput::Files(Ok(files)) = input {
        lemma_listed_paths(w, files@);
    }
    if let DirectoryAction::Prepare { files, .. } = action {
        if state is Preparing {
            lemma_listed_paths(w, files@);
        }
    }
    indexing::law_every_file_is_counted(state, input, next, wanted, total);
    match (state, input) {
        (
            DirectoryIndexing::ListingDocuments { dir: d, settings: s, files },
            DirectoryInput::Documents(Ok(docs)),
        ) => {
            if docs@.len() == 0 {
                assert(!exists|id: Seq<char>| w.docs.contains_key(id));
                lemma_sweep_goes_on(
                    w,
                    dir,
                    settings,
                    files,
                    docs,
                    Seq::empty(),
                    0,
                    next,
                    wanted,
                );
            }
        },
        (
            DirectoryIndexing::FetchingPaths { dir: d, settings: s, files, docs },
            DirectoryInput::Paths(Ok(paths)),
        ) => {
            let map = retriever::path_map(paths@);
            let gone = indexer::gone_documents(docs@, listed_ids(w), map, dir);
            lemma_listed_paths(w, files@);
            lemma_gone(w, dir, docs@, map);
            assert(gone.skip(0) =~= gone);
            lemma_sweep_goes_on(w, dir, settings, files, docs, gone, 0, next, wanted);
        },
        (
            DirectoryIndexing::Sweeping { settings: s, files, docs, gone, removed },
            DirectoryInput::Removed(Ok(_)),
        ) => {
            let all = text::views(gone@);
            let id = all[removed as int];
            assert(all.len() == gone@.len());
            assert(listed_ids(after) == listed_ids(w));
            assert forall|x: Seq<char>|
                after.docs.contains_key(x) && #[trigger] indexer::is_under(after.paths, x, dir) implies listed_ids(
                after,
            ).contains(x) || all.skip(removed + 1).contains(x) by {
                assert(indexer::is_under(w.paths, x, dir));
                if !listed_ids(w).contains(x) {
                    let rest = all.skip(removed as int);
                    let k = choose|k: int| 0 <= k < rest.len() && rest[k] == x;
                    assert(k > 0);
                    assert(all.skip(removed + 1)[k - 1] == x);
                }
            }
            lemma_sweep_goes_on(
                after,
                dir,
                settings,
                files,
                docs,
                all,
                removed + 1,
                next,
                wanted,
            );
        },
        (
            DirectoryIndexing::Preparing { settings: s, total: t, removed, force },
            DirectoryInput::Prepared(Ok(list)),
        ) => {
            if let DirectoryAction::Prepare { files, existing, force: f } = action {
                lemma_prepared(w, dir, settings, files@, existing@, force, list@);
                let p = choose|p: Progress|
                    {
                        &&& p.settings == s
                        &&& p.force == force
                        &&& p.total == t
                        &&& p.stats == (IndexStats {
                            files_removed: removed,
                            ..indexer::nothing_indexed()
                        })
                        &&& p.todo@ == indexing::kept(list@).reverse()
                        &&& p.pending@.len() == 0
                        &&& p.pending_chunks == 0
                        &&& #[trigger] indexing::files_go_on(p, next, wanted)
                    };
                lemma_reversed(indexing::kept(list@), p.todo@);
                assert(p.todo@ + p.pending@ =~= p.todo@);
                lemma_storing_again(
                    w,
                    dir,
                    settings,
                    force,
                    indexing::kept(list@),
                    p.todo@ + p.pending@,
                );
                lemma_files_go_on(w, dir, settings, p, next, wanted);
            }
        },
        (DirectoryIndexing::AnnouncingFile { progress, file }, DirectoryInput::Sent(true)) => {
            let files = progress.pending@.push(file);
            let all = progress.todo@ + progress.pending@ + seq![file];
            assert(all =~= progress.todo@ + files);
            if !indexing::is_batch(progress.pending_chunks, file) {
                let p = choose|p: Progress|
                    {
                        &&& indexing::same_run(p, progress)
                        &&& p.stats == progress.stats
                        &&& p.pending@ == files
                        &&& p.pending_chunks == progress.pending_chunks + file.chunks@.len()
                        &&& #[trigger] indexing::files_go_on(p, next, wanted)
                    };
                lemma_files_go_on(w, dir, settings, p, next, wanted);
            }
        },
        (
            DirectoryIndexing::Flushing { progress, count, chunks },
            DirectoryInput::Flushed(Ok(flushed)),
        ) => {
            if let DirectoryAction::Flush(files) = action {
                lemma_flushed(w, dir, settings, progress.force, progress.todo@, files@);
                let p = choose|p: Progress|
                    indexing::counted(progress, count, chunks, flushed, p)
                        && #[trigger] indexing::files_go_on(p, next, wanted);
                assert(p.todo@ + p.pending@ =~= progress.todo@);
                lemma_files_go_on(after, dir, settings, p, next, wanted);
            }
        },
        (
            DirectoryIndexing::FlushingRest { progress, count, chunks },
            DirectoryInput::Flushed(Ok(flushed)),
        ) => {
            if let DirectoryAction::Flush(files) = action {
                assert(Seq::<PendingFile>::empty() + files@ =~= files@);
                lemma_flushed(w, dir, settings, progress.force, Seq::empty(), files@);
                let stats = indexing::with_stored(progress.stats, count as int, chunks as int);
                lemma_finish_goes_on(
                    after,
                    dir,
                    settings,
                    progress.force,
                    stats,
                    next,
                    wanted,
                );
            }
        },
        _ => {},
    }
}

proof fn lemma_run_settles(run: DirectoryRun, dir: Seq<char>, settings: IndexSettings, k: int)
    requires
        is_run(run, dir, settings),
        ids_differ(run.worlds[0]),
        run.worlds[0].listing.len() <= usize::MAX,
        0 <= k < run.inputs.len(),
    ensures
        settles(run.worlds[k], dir, settings, run.states[k + 1], run.actions[k]),
        same_files(run.worlds[k], run.worlds[0]),
    decreases k,
{
    assert(indexing::directory_steps(
        run.states[k],
        run.inputs[k],
        run.states[k + 1],
        run.actions[k],
    ));
    if k > 0 {
        lemma_run_settles(run, dir, settings, k - 1);
        assert(answers(run.worlds[k - 1], run.actions[k - 1], run.inputs[k], run.worlds[k]));
        lemma_settles_on(
            run.worlds[k - 1],
            dir,
            settings,
            run.states[k],
            run.actions[k - 1],
            run.inputs[k],
            run.worlds[k],
            run.states[k + 1],
            run.actions[k],
        );
    }
}

/// A run that completes brings the store up to date: each listed file that has
/// chunks is stored as it is, no document in the directory is left of a file that
/// is not listed any more, and the store is marked with the settings. The files
/// are all counted, as indexed or as skipped.
pub proof fn law_run_settles(
    run: DirectoryRun,
    dir: Seq<char>,
    settings: IndexSettings,
    stats: IndexStats,
)
    requires
        is_run(run, dir, settings),
        completes(run, stats),
        ids_differ(run.worlds[0]),
        run.worlds[0].listing.len() <= usize::MAX,
    ensures
        is_settled(run.worlds.last(), dir, settings),
        run.worlds.last().listing == run.worlds[0].listing,
        stats.files_indexed + stats.files_skipped == run.worlds[0].listing.len(),
{
    lemma_run_settles(run, dir, settings, run.inputs.len() - 1);
}

// ---- a settled store is left alone ----

/// The counts of a run that leaves out every file.
pub open spec fn all_skipped(total: usize) -> IndexStats {
    IndexStats { files_skipped: total, ..indexer::nothing_indexed() }
}

/// What holds of a run over a settled store after each step.
spec fn rests(
    w: World,
    dir: Seq<char>,
    settings: IndexSettings,
    state: DirectoryIndexing,
    action: DirectoryAction,
) -> bool {
    let stats = all_skipped(w.listing.len() as usize);
    &&& !writes(action)
    &&& match state {
        DirectoryIndexing::ListingFiles { dir: d, settings: s } => {
            d@ == dir && s == settings && action is ListFiles
        },
        DirectoryIndexing::AnnouncingScan { dir: d, settings: s, files } => {
            d@ == dir && s == settings && text::views(files@) == w.listing && action is Send
        },
        DirectoryIndexing::ListingDocuments { dir: d, settings: s, files } => {
            d@ == dir && s == settings && text::views(files@) == w.listing && action
                is ListDocuments
        },
        DirectoryIndexing::FetchingPaths { dir: d, settings: s, files, docs } => {
            &&& d@ == dir && s == settings && text::views(files@) == w.listing
            &&& indexer::document_map(docs@) == w.docs
            &&& action matches DirectoryAction::FetchPaths(ids)
            &&& text::views(ids@) == indexing::ids_of_documents(docs@)
        },
        DirectoryIndexing::CheckingModel { settings: s, files, docs, removed } => {
            &&& s == settings && text::views(files@) == w.listing && removed == 0
            &&& indexer::document_map(docs@) == w.docs
            &&& action is GetModel
        },
        DirectoryIndexing::CheckingMeta { settings: s, files, docs, removed } => {
            &&& s == settings && text::views(files@) == w.listing && removed == 0
            &&& indexer::document_map(docs@) == w.docs
            &&& action is GetMeta
        },
        DirectoryIndexing::Preparing { settings: s, total, removed, force } => {
            &&& s == settings && total == w.listing.len() && removed == 0 && !force
            &&& action matches DirectoryAction::Prepare { files, existing, force: f }
            &&& !f && text::views(files@) == w.listing && existing@ == w.docs
        },
        DirectoryIndexing::Completing { stats: s } => s == stats && action is Send,
        DirectoryIndexing::Done => action == DirectoryAction::Return(Ok(stats)),
        _ => false,
    }
}

/// Each step over a settled store leaves it as it is.
#[verifier::rlimit(40)]
proof fn lemma_rests_on(
    w: World,
    dir: Seq<char>,
    settings: IndexSettings,
    state: DirectoryIndexing,
    action: DirectoryAction,
    input: DirectoryInput,
    after: World,
    next: DirectoryIndexing,
    wanted: DirectoryAction,
)
    requires
        w.listing.len() <= usize::MAX,
        is_settled(w, dir, settings),
        rests(w, dir, settings, state, action),
        answers(w, action, input, after),
        indexing::directory_steps(state, input, next, wanted),
    ensures
        after == w,
        rests(w, dir, settings, next, wanted),
{
    match (state, input) {
        (
            DirectoryIndexing::FetchingPaths { dir: d, settings: s, files, docs },
            DirectoryInput::Paths(Ok(paths)),
        ) => {
            let map = retriever::path_map(paths@);
            let gone = indexer::gone_documents(docs@, listed_ids(w), map, dir);
            lemma_listed_paths(w, files@);
            lemma_gone(w, dir, docs@, map);
            if gone.len() > 0 {
                assert(indexer::is_under(w.paths, gone[0], dir));
            }
        },
        (
            DirectoryIndexing::CheckingMeta { settings: s, files, docs, removed },
            DirectoryInput::Meta(Ok(stored)),
        ) => {
            lemma_listed_paths(w, files@);
        },
        (
            DirectoryIndexing::Preparing { settings: s, total: t, removed, force },
            DirectoryInput::Prepared(Ok(list)),
        ) => {
            if let DirectoryAction::Prepare { files, existing, force: f } = action {
                lemma_listed_paths(w, files@);
                assert forall|i: int| 0 <= i < list@.len() implies #[trigger] list@[i] is None by {
                    assert(w.listing[i] == files@[i]@);
                }
                let todo = indexing::kept(list@);
                if todo.len() > 0 {
                    lemma_kept(list@, todo[0]);
                    assert(todo.contains(todo[0]));
                }
                let p = choose|p: Progress|
                    {
                        &&& p.settings == s
                        &&& p.force == force
                        &&& p.total == t
                        &&& p.stats == (IndexStats {
                            files_removed: removed,
                            ..indexer::nothing_indexed()
                        })
                        &&& p.todo@ == todo.reverse()
                        &&& p.pending@.len() == 0
                        &&& p.pending_chunks == 0
                        &&& #[trigger] indexing::files_go_on(p, next, wanted)
                    };
                assert(p.todo@.len() == 0);
            }
        },
        _ => {},
    }
}

proof fn lemma_run_rests(run: DirectoryRun, dir: Seq<char>, settings: IndexSettings, k: int)
    requires
        is_run(run, dir, settings),
        is_settled(run.worlds[0], dir, settings),
        run.worlds[0].listing.len() <= usize::MAX,
        0 <= k < run.inputs.len(),
    ensures
        run.worlds[k] == run.worlds[0],
        rests(run.worlds[0], dir, settings, run.states[k + 1], run.actions[k]),
    decreases k,
{
    assert(indexing::directory_steps(
        run.states[k],
        run.inputs[k],
        run.states[k + 1],
        run.actions[k],
    ));
    if k > 0 {
        lemma_run_rests(run, dir, settings, k - 1);
        assert(answers(run.worlds[k - 1], run.actions[k - 1], run.inputs[k], run.worlds[k]));
        lemma_rests_on(
            run.worlds[0],
            dir,
            settings,
            run.states[k],
            run.actions[k - 1],
            run.inputs[k],
            run.worlds[k],
            run.states[k + 1],
            run.actions[k],
        );
    }
}

/// Where the store is up to date, a run writes nothing: the store stays as it is,
/// and every file is skipped.
pub proof fn law_settled_store_is_left_alone(
    run: DirectoryRun,
    dir: Seq<char>,
    settings: IndexSettings,
)
    requires
        is_run(run, dir, settings),
        is_settled(run.worlds[0], dir, settings),
        run.worlds[0].listing.len() <= usize::MAX,
    ensures
        forall|k: int|
            0 <= k < run.inputs.len() ==> #[trigger] run.worlds[k] == run.worlds[0] && !writes(
                run.actions[k],
            ),
        forall|stats: IndexStats| #[trigger]
            completes(run, stats) ==> stats == all_skipped(run.worlds[0].listing.len() as usize),
{
    assert forall|k: int| 0 <= k < run.inputs.len() implies #[trigger] run.worlds[k]
        == run.worlds[0] && !writes(run.actions[k]) by {
        lemma_run_rests(run, dir, settings, k);
    }
    lemma_run_rests(run, dir, settings, run.inputs.len() - 1);
}

/// Indexing is incremental: a second run over a directory whose files have not
/// changed, with the same settings, writes nothing. It indexes and removes
/// nothing, and skips all files that the first run indexed or skipped. Files
/// whose document ids collide are left out.
pub proof fn law_second_run_changes_nothing(
    first: DirectoryRun,
    second: DirectoryRun,
    dir: Seq<char>,
    settings: IndexSettings,
    stats: IndexStats,
)
    requires
        is_run(first, dir, settings),
        completes(first, stats),
        is_run(second, dir, settings),
        second.worlds[0] == first.worlds.last(),
        ids_differ(first.worlds[0]),
        first.worlds[0].listing.len() <= usize::MAX,
    ensures
        forall|k: int|
            0 <= k < second.inputs.len() ==> #[trigger] second.worlds[k] == first.worlds.last()
                && !writes(second.actions[k]),
        forall|again: IndexStats| #[trigger]
            completes(second, again) ==> {
                &&& again.files_indexed == 0
                &&& again.chunks_indexed == 0
                &&& again.files_removed == 0
                &&& again.files_skipped == stats.files_indexed + stats.files_skipped
            },
{
    law_run_settles(first, dir, settings, stats);
    law_settled_store_is_left_alone(second, dir, settings);
}

} // verus!
