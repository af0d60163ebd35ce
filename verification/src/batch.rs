//! Writing prepared files to the store, a few per transaction.

use vstd::prelude::*;

use crate::indexer::PendingFile;
use crate::models::{Chunk, Document};
use crate::text;

verus! {

/// How many files are written per transaction.
pub const TX_BATCH_SIZE: usize = 5;

/// How many chunks are collected before they are embedded.
pub const EMBED_BATCH_SIZE: usize = 500;

/// One thing to do to the store.
#[derive(Debug)]
pub enum StoreOp {
    Begin,
    Commit,
    AddDocument(Document),
    SetDocumentPath { doc_id: String, path: String },
    DeleteDocument { doc_id: String },
    AddChunks(Vec<Chunk>),
    AddChunkDocuments { chunk_ids: Vec<String>, doc_id: String },
    DeleteChunksByDoc { doc_id: String },
    AddVectors { chunk_ids: Vec<String>, embeddings: Vec<Vec<u32>> },
    AddFtsChunks { chunk_ids: Vec<String>, texts: Vec<String> },
}

/// What a [`StoreOp`] says.
pub enum OpView {
    Begin,
    Commit,
    AddDocument(Document),
    SetDocumentPath { doc_id: Seq<char>, path: Seq<char> },
    DeleteDocument { doc_id: Seq<char> },
    AddChunks(Seq<Chunk>),
    AddChunkDocuments { chunk_ids: Seq<Seq<char>>, doc_id: Seq<char> },
    DeleteChunksByDoc { doc_id: Seq<char> },
    AddVectors { chunk_ids: Seq<Seq<char>>, embeddings: Seq<Seq<u32>> },
    AddFtsChunks { chunk_ids: Seq<Seq<char>>, texts: Seq<Seq<char>> },
}

pub open spec fn vectors(list: Seq<Vec<u32>>) -> Seq<Seq<u32>> {
    list.map_values(|v: Vec<u32>| v@)
}

impl View for StoreOp {
    type V = OpView;

    open spec fn view(&self) -> OpView {
        match *self {
            StoreOp::Begin => OpView::Begin,
            StoreOp::Commit => OpView::Commit,
            StoreOp::AddDocument(doc) => OpView::AddDocument(doc),
            StoreOp::SetDocumentPath { doc_id, path } => OpView::SetDocumentPath {
                doc_id: doc_id@,
                path: path@,
            },
            StoreOp::DeleteDocument { doc_id } => OpView::DeleteDocument { doc_id: doc_id@ },
            StoreOp::AddChunks(chunks) => OpView::AddChunks(chunks@),
            StoreOp::AddChunkDocuments { chunk_ids, doc_id } => OpView::AddChunkDocuments {
                chunk_ids: text::views(chunk_ids@),
                doc_id: doc_id@,
            },
            StoreOp::DeleteChunksByDoc { doc_id } => OpView::DeleteChunksByDoc { doc_id: doc_id@ },
            StoreOp::AddVectors { chunk_ids, embeddings } => OpView::AddVectors {
                chunk_ids: text::views(chunk_ids@),
                embeddings: vectors(embeddings@),
            },
            StoreOp::AddFtsChunks { chunk_ids, texts } => OpView::AddFtsChunks {
                chunk_ids: text::views(chunk_ids@),
                texts: text::views(texts@),
            },
        }
    }
}

pub open spec fn op_views(ops: Seq<StoreOp>) -> Seq<OpView> {
    ops.map_values(|op: StoreOp| op@)
}

pub open spec fn chunk_ids_of(chunks: Seq<Chunk>) -> Seq<Seq<char>> {
    chunks.map_values(|c: Chunk| c.id@)
}

/// The number of chunks of the first `n` files.
pub open spec fn chunk_offset(files: Seq<PendingFile>, n: int) -> nat
    decreases n,
{
    if n <= 0 {
        0
    } else {
        chunk_offset(files, n - 1) + files[n - 1].chunks@.len()
    }
}

/// What it takes to write one file.
pub open spec fn file_ops(file: PendingFile, embeddings: Seq<Seq<u32>>) -> Seq<OpView> {
    let id = file.doc.id@;
    let chunk_ids = chunk_ids_of(file.chunks@);
    let cleared = if file.is_update {
        seq![OpView::DeleteChunksByDoc { doc_id: id }]
    } else {
        Seq::empty()
    };
    cleared + seq![
        OpView::AddDocument(file.doc),
        OpView::SetDocumentPath { doc_id: id, path: file.path@ },
        OpView::AddChunks(file.chunks@),
        OpView::AddChunkDocuments { chunk_ids, doc_id: id },
        OpView::AddVectors { chunk_ids, embeddings },
        OpView::AddFtsChunks { chunk_ids, texts: text::views(file.tokenized_texts@) },
    ]
}

/// The embeddings of the file `k`.
pub open spec fn embeddings_of(
    files: Seq<PendingFile>,
    embeddings: Seq<Seq<u32>>,
    k: int,
) -> Seq<Seq<u32>> {
    embeddings.subrange(chunk_offset(files, k) as int, chunk_offset(files, k + 1) as int)
}

/// What it takes to write the first `n` files: a transaction is open all the
/// time, and is committed and followed by another after each group of files.
pub open spec fn first_ops(files: Seq<PendingFile>, embeddings: Seq<Seq<u32>>, n: int) -> Seq<
    OpView,
>
    decreases n,
{
    if n <= 0 {
        seq![OpView::Begin]
    } else {
        let ops = first_ops(files, embeddings, n - 1) + file_ops(
            files[n - 1],
            embeddings_of(files, embeddings, n - 1),
        );
        if n % (TX_BATCH_SIZE as int) == 0 {
            ops + seq![OpView::Commit, OpView::Begin]
        } else {
            ops
        }
    }
}

/// What it takes to write all files.
pub open spec fn batch_ops(files: Seq<PendingFile>, embeddings: Seq<Seq<u32>>) -> Seq<OpView> {
    let n = files.len() as int;
    if n % (TX_BATCH_SIZE as int) == 0 {
        first_ops(files, embeddings, n)
    } else {
        first_ops(files, embeddings, n).push(OpView::Commit)
    }
}

proof fn lemma_offset_monotone(files: Seq<PendingFile>, a: int, b: int)
    requires
        0 <= a <= b,
    ensures
        chunk_offset(files, a) <= chunk_offset(files, b),
    decreases b,
{
    if a < b {
        lemma_offset_monotone(files, a, b - 1);
    }
}

fn ids(chunks: &Vec<Chunk>) -> (r: Vec<String>)
    ensures
        text::views(r@) == chunk_ids_of(chunks@),
{
    let mut out: Vec<String> = Vec::new();
    let mut i: usize = 0;
    while i < chunks.len()
        invariant
            i <= chunks@.len(),
            text::views(out@) == chunk_ids_of(chunks@).take(i as int),
        decreases chunks@.len() - i,
    {
        let ghost before = text::views(out@);
        out.push(chunks[i].id.clone());
        assert(text::views(out@) =~= before.push(chunks@[i as int].id@));
        assert(text::views(out@) =~= chunk_ids_of(chunks@).take(i + 1));
        i += 1;
    }
    assert(text::views(out@) =~= chunk_ids_of(chunks@));
    out
}

fn copy_vectors(list: &Vec<Vec<u32>>, lo: usize, hi: usize) -> (r: Vec<Vec<u32>>)
    requires
        lo <= hi <= list@.len(),
    ensures
        vectors(r@) == vectors(list@).subrange(lo as int, hi as int),
{
    let mut out: Vec<Vec<u32>> = Vec::new();
    let mut i: usize = lo;
    while i < hi
        invariant
            lo <= i <= hi <= list@.len(),
            vectors(out@) == vectors(list@).subrange(lo as int, i as int),
        decreases hi - i,
    {
        let v = list[i].clone();
        assert(v@ =~= list@[i as int]@);
        let ghost before = vectors(out@);
        out.push(v);
        assert(vectors(out@) =~= before.push(list@[i as int]@));
        assert(vectors(out@) =~= vectors(list@).subrange(lo as int, i + 1));
        i += 1;
    }
    out
}

fn push_op(ops: &mut Vec<StoreOp>, op: StoreOp)
    ensures
        op_views(final(ops)@) == op_views(old(ops)@).push(op@),
{
    ops.push(op);
    assert(op_views(ops@) =~= op_views(old(ops)@).push(op@));
}

fn push_file(ops: &mut Vec<StoreOp>, file: PendingFile, embeddings: Vec<Vec<u32>>)
    ensures
        op_views(final(ops)@) == op_views(old(ops)@) + file_ops(file, vectors(embeddings@)),
{
    let ghost start = op_views(ops@);
    let chunk_ids = ids(&file.chunks);
    let vector_ids = ids(&file.chunks);
    let fts_ids = ids(&file.chunks);
    let doc_id = file.doc.id.clone();
    if file.is_update {
        push_op(ops, StoreOp::DeleteChunksByDoc { doc_id: file.doc.id.clone() });
    }
    push_op(ops, StoreOp::AddDocument(file.doc));
    push_op(ops, StoreOp::SetDocumentPath { doc_id: doc_id.clone(), path: file.path });
    push_op(ops, StoreOp::AddChunks(file.chunks));
    push_op(ops, StoreOp::AddChunkDocuments { chunk_ids, doc_id });
    push_op(ops, StoreOp::AddVectors { chunk_ids: vector_ids, embeddings });
    push_op(ops, StoreOp::AddFtsChunks { chunk_ids: fts_ids, texts: file.tokenized_texts });
    assert(op_views(ops@) =~= start + file_ops(file, vectors(embeddings@)));
}

/// Plans how to write the files of a batch: what a file held before is cleared,
/// then the document, its path, its chunks and their links, vectors and words
/// are added, with a commit after each group of files and at the end.
pub fn plan_writes(files: Vec<PendingFile>, embeddings: &Vec<Vec<u32>>) -> (r: Vec<StoreOp>)
    requires
        chunk_offset(files@, files@.len() as int) <= embeddings@.len(),
    ensures
        op_views(r@) == batch_ops(files@, vectors(embeddings@)),
{
    let mut ops: Vec<StoreOp> = Vec::new();
    let mut offset: usize = 0;
    let mut in_tx: usize = 0;
    let ghost all = files@;
    assert(op_views(ops@) =~= Seq::empty());
    push_op(&mut ops, StoreOp::Begin);
    assert(op_views(ops@) =~= first_ops(all, vectors(embeddings@), 0));
    for file in it: files
        invariant
            it.seq() == all,
            chunk_offset(all, all.len() as int) <= embeddings@.len(),
            offset == chunk_offset(all, it.index() as int),
            in_tx < TX_BATCH_SIZE,
            in_tx == (it.index() as int) % (TX_BATCH_SIZE as int),
            op_views(ops@) == first_ops(all, vectors(embeddings@), it.index() as int),
    {
        let ghost k = it.index() as int;
        assert(file == all[k]);
        proof {
            lemma_offset_monotone(all, k + 1, all.len() as int);
            assert(vectors(embeddings@).len() == embeddings@.len());
            assert(embeddings.len() == embeddings@.len());
        }
        let n: usize = file.chunks.len();
        let part = copy_vectors(embeddings, offset, offset + n);
        push_file(&mut ops, file, part);
        offset += n;
        in_tx += 1;
        if in_tx >= TX_BATCH_SIZE {
            let ghost before = op_views(ops@);
            push_op(&mut ops, StoreOp::Commit);
            push_op(&mut ops, StoreOp::Begin);
            assert(op_views(ops@) =~= before + seq![OpView::Commit, OpView::Begin]);
            in_tx = 0;
        }
    }
    if in_tx > 0 {
        push_op(&mut ops, StoreOp::Commit);
    }
    ops
}

// ---- what a plan guarantees ----

/// How a sequence of operations stands with transactions: whether all was well
/// so far, whether one is open, and how many writes are not committed.
pub struct TxState {
    pub ok: bool,
    pub open: bool,
    pub pending: nat,
}

pub open spec fn tx_after(ops: Seq<OpView>) -> TxState
    decreases ops.len(),
{
    if ops.len() == 0 {
        TxState { ok: true, open: false, pending: 0 }
    } else {
        let s = tx_after(ops.drop_last());
        match ops.last() {
            OpView::Begin => TxState { ok: s.ok && !s.open, open: true, pending: s.pending },
            OpView::Commit => TxState { ok: s.ok && s.open, open: false, pending: 0 },
            _ => TxState { ok: s.ok && s.open, open: s.open, pending: s.pending + 1 },
        }
    }
}

proof fn lemma_tx_writes(ops: Seq<OpView>, more: Seq<OpView>)
    requires
        tx_after(ops).ok,
        tx_after(ops).open,
        forall|i: int|
            0 <= i < more.len() ==> !((#[trigger] more[i]) is Begin) && !(more[i] is Commit),
    ensures
        tx_after(ops + more).ok,
        tx_after(ops + more).open,
        tx_after(ops + more).pending == tx_after(ops).pending + more.len(),
    decreases more.len(),
{
    if more.len() == 0 {
        assert(ops + more =~= ops);
    } else {
        lemma_tx_writes(ops, more.drop_last());
        assert((ops + more).drop_last() =~= ops + more.drop_last());
        assert((ops + more).last() == more.last());
    }
}

proof fn lemma_first_ops_tx(files: Seq<PendingFile>, embeddings: Seq<Seq<u32>>, n: int)
    requires
        0 <= n <= files.len(),
    ensures
        ({
            let s = tx_after(first_ops(files, embeddings, n));
            &&& s.ok
            &&& s.open
            &&& s.pending <= 7 * (n % (TX_BATCH_SIZE as int))
            &&& n % (TX_BATCH_SIZE as int) == 0 ==> s.pending == 0
        }),
    decreases n,
{
    reveal_with_fuel(tx_after, 3);
    if n == 0 {
        assert(seq![OpView::Begin].drop_last() =~= Seq::<OpView>::empty());
    } else {
        lemma_first_ops_tx(files, embeddings, n - 1);
        let head = first_ops(files, embeddings, n - 1);
        let more = file_ops(files[n - 1], embeddings_of(files, embeddings, n - 1));
        lemma_tx_writes(head, more);
        let ops = head + more;
        if n % (TX_BATCH_SIZE as int) == 0 {
            let end = ops + seq![OpView::Commit, OpView::Begin];
            assert(end.drop_last() =~= ops.push(OpView::Commit));
            assert(ops.push(OpView::Commit).drop_last() =~= ops);
        }
    }
}

/// A plan leaves nothing uncommitted: every write stands in a transaction, no
/// transaction is begun inside another, and after the last operation all writes
/// are committed.
pub proof fn law_writes_are_committed(files: Seq<PendingFile>, embeddings: Seq<Seq<u32>>)
    ensures
        tx_after(batch_ops(files, embeddings)).ok,
        tx_after(batch_ops(files, embeddings)).pending == 0,
{
    let n = files.len() as int;
    lemma_first_ops_tx(files, embeddings, n);
    let ops = first_ops(files, embeddings, n);
    if n % (TX_BATCH_SIZE as int) != 0 {
        assert(ops.push(OpView::Commit).drop_last() =~= ops);
    }
}

/// Vectors and words match the chunks that they are stored for, one for one.
pub proof fn law_vectors_match_chunks(
    files: Seq<PendingFile>,
    embeddings: Seq<Seq<u32>>,
    k: int,
)
    requires
        0 <= k < files.len(),
        chunk_offset(files, files.len() as int) <= embeddings.len(),
    ensures
        embeddings_of(files, embeddings, k).len() == chunk_ids_of(files[k].chunks@).len(),
        forall|i: int|
            0 <= i < files[k].chunks@.len() ==> embeddings_of(files, embeddings, k)[i]
                == embeddings[chunk_offset(files, k) + i],
{
    lemma_offset_monotone(files, k + 1, files.len() as int);
}

/// The offset of a file is the number of chunks of the files before it.
pub proof fn law_offsets_count_chunks(files: Seq<PendingFile>, k: int)
    requires
        0 <= k < files.len(),
    ensures
        chunk_offset(files, 0) == 0,
        chunk_offset(files, k + 1) == chunk_offset(files, k) + files[k].chunks@.len(),
{
}

proof fn lemma_first_prefix(files: Seq<PendingFile>, embeddings: Seq<Seq<u32>>, k: int, n: int)
    requires
        0 <= k <= n,
    ensures
        first_ops(files, embeddings, k).len() <= first_ops(files, embeddings, n).len(),
        forall|j: int|
            0 <= j < first_ops(files, embeddings, k).len() ==> #[trigger] first_ops(
                files,
                embeddings,
                n,
            )[j] == first_ops(files, embeddings, k)[j],
    decreases n,
{
    if k < n {
        lemma_first_prefix(files, embeddings, k, n - 1);
    }
}

proof fn lemma_file_stands(files: Seq<PendingFile>, embeddings: Seq<Seq<u32>>, k: int) -> (p: int)
    requires
        0 <= k < files.len(),
    ensures
        ({
            let ops = batch_ops(files, embeddings);
            let file = files[k];
            let n = files.len() as int;
            &&& p == first_ops(files, embeddings, k).len() + if file.is_update {
                1int
            } else {
                0int
            }
            &&& file.is_update ==> ops[p - 1] == (OpView::DeleteChunksByDoc {
                doc_id: file.doc.id@,
            })
            &&& 0 < p && p + 6 < ops.len()
            &&& ops[p] == OpView::AddDocument(file.doc)
            &&& ops[p + 1] == (OpView::SetDocumentPath { doc_id: file.doc.id@, path: file.path@ })
            &&& ops[p + 2] == OpView::AddChunks(file.chunks@)
            &&& ops[p + 3] == (OpView::AddChunkDocuments {
                chunk_ids: chunk_ids_of(file.chunks@),
                doc_id: file.doc.id@,
            })
            &&& ops[p + 4] == (OpView::AddVectors {
                chunk_ids: chunk_ids_of(file.chunks@),
                embeddings: embeddings_of(files, embeddings, k),
            })
            &&& ops[p + 5] == (OpView::AddFtsChunks {
                chunk_ids: chunk_ids_of(file.chunks@),
                texts: text::views(file.tokenized_texts@),
            })
            &&& (k + 1) % 5 == 0 || k + 1 == n <==> ops[p + 6] is Commit
            &&& (k + 1) % 5 == 0 ==> ops[p + 7] is Begin
            &&& first_ops(files, embeddings, k + 1).len() == if (k + 1) % 5 == 0 {
                p + 8
            } else {
                p + 6
            }
            &&& k + 1 == n && (k + 1) % 5 == 0 ==> ops.len() == p + 8
            &&& k + 1 == n && (k + 1) % 5 != 0 ==> ops.len() == p + 7
        }),
{
    let n = files.len() as int;
    let ops = batch_ops(files, embeddings);
    let head = first_ops(files, embeddings, k);
    let more = file_ops(files[k], embeddings_of(files, embeddings, k));
    let next = first_ops(files, embeddings, k + 1);
    lemma_first_prefix(files, embeddings, 0, k);
    lemma_first_prefix(files, embeddings, k + 1, n);
    assert(forall|j: int| 0 <= j < next.len() ==> #[trigger] ops[j] == next[j]);
    assert(forall|j: int| 0 <= j < more.len() ==> #[trigger] next[head.len() + j] == more[j]);
    let d = if files[k].is_update {
        1int
    } else {
        0int
    };
    assert(more.len() == d + 6);
    assert(forall|j: int| 0 <= j < more.len() ==> ops[head.len() + j] == #[trigger] more[j]);
    assert(ops[head.len() + d] == more[d]);
    assert(ops[head.len() + (d + 1)] == more[d + 1]);
    assert(ops[head.len() + (d + 2)] == more[d + 2]);
    assert(ops[head.len() + (d + 3)] == more[d + 3]);
    assert(ops[head.len() + (d + 4)] == more[d + 4]);
    assert(ops[head.len() + (d + 5)] == more[d + 5]);
    if files[k].is_update {
        assert(ops[head.len() + 0int] == more[0]);
    }
    if (k + 1) % 5 == 0 {
        assert(next == (head + more) + seq![OpView::Commit, OpView::Begin]);
        assert(next[head.len() + d + 6] == OpView::Commit);
        assert(next[head.len() + d + 7] == OpView::Begin);
    } else {
        assert(next == head + more);
        if k + 1 < n {
            let more2 = file_ops(files[k + 1], embeddings_of(files, embeddings, k + 1));
            let next2 = first_ops(files, embeddings, k + 2);
            lemma_first_prefix(files, embeddings, k + 2, n);
            assert(next2[next.len() as int] == more2[0]);
            assert(ops[next.len() as int] == next2[next.len() as int]);
        }
    }
    head.len() + d
}

/// A plan writes the files in order. For each it clears what the document held
/// where the file is an update, then adds the document, its path, its chunks,
/// the link of each chunk to the document, the embedding of each chunk under the
/// chunk's own identifier, and the words of each chunk under it. After every
/// fifth file, and after the last one, the transaction is committed. The result
/// gives the place where each document is added.
pub proof fn law_plan_writes_each_file(files: Seq<PendingFile>, embeddings: Seq<Seq<u32>>) -> (at:
    Seq<int>)
    requires
        chunk_offset(files, files.len() as int) <= embeddings.len(),
    ensures
        at.len() == files.len(),
        batch_ops(files, embeddings).len() > 0,
        batch_ops(files, embeddings)[0] is Begin,
        files.len() == 0 ==> batch_ops(files, embeddings).len() == 1,
        files.len() > 0 ==> at[0] == if files[0].is_update {
            2int
        } else {
            1int
        },
        forall|k: int|
            0 <= k < files.len() ==> {
                let ops = batch_ops(files, embeddings);
                let file = files[k];
                let p = #[trigger] at[k];
                &&& 0 < p && p + 6 < ops.len()
                &&& file.is_update ==> ops[p - 1] == (OpView::DeleteChunksByDoc {
                    doc_id: file.doc.id@,
                })
                &&& ops[p] == OpView::AddDocument(file.doc)
                &&& ops[p + 1] == (OpView::SetDocumentPath {
                    doc_id: file.doc.id@,
                    path: file.path@,
                })
                &&& ops[p + 2] == OpView::AddChunks(file.chunks@)
                &&& ops[p + 3] matches OpView::AddChunkDocuments { chunk_ids, doc_id } && {
                    &&& doc_id == file.doc.id@
                    &&& chunk_ids.len() == file.chunks@.len()
                    &&& forall|i: int|
                        0 <= i < chunk_ids.len() ==> #[trigger] chunk_ids[i] == file.chunks@[i].id@
                }
                &&& ops[p + 4] matches OpView::AddVectors { chunk_ids, embeddings: stored } && {
                    &&& chunk_ids.len() == file.chunks@.len()
                    &&& stored.len() == file.chunks@.len()
                    &&& forall|i: int|
                        0 <= i < chunk_ids.len() ==> #[trigger] chunk_ids[i] == file.chunks@[i].id@
                    &&& forall|i: int|
                        0 <= i < stored.len() ==> #[trigger] stored[i] == embeddings[chunk_offset(
                            files,
                            k,
                        ) + i]
                }
                &&& ops[p + 5] matches OpView::AddFtsChunks { chunk_ids, texts } && {
                    &&& chunk_ids.len() == file.chunks@.len()
                    &&& texts.len() == file.tokenized_texts@.len()
                    &&& forall|i: int|
                        0 <= i < chunk_ids.len() ==> #[trigger] chunk_ids[i] == file.chunks@[i].id@
                    &&& forall|i: int|
                        0 <= i < texts.len() ==> #[trigger] texts[i] == file.tokenized_texts@[i]@
                }
            },
        forall|k: int|
            0 <= k < files.len() ==> {
                let ops = batch_ops(files, embeddings);
                let end = (#[trigger] at[k]) + 6;
                &&& (k + 1) % 5 == 0 || k + 1 == files.len() <==> ops[end] is Commit
                &&& (k + 1) % 5 == 0 ==> ops[end + 1] is Begin
                &&& k + 1 == files.len() && (k + 1) % 5 == 0 ==> ops.len() == end + 2
                &&& k + 1 == files.len() && (k + 1) % 5 != 0 ==> ops.len() == end + 1
                &&& k + 1 < files.len() ==> at[k + 1] == end + (if (k + 1) % 5 == 0 {
                    2int
                } else {
                    0int
                }) + (if files[k + 1].is_update {
                    1int
                } else {
                    0int
                })
            },
{
    let n = files.len() as int;
    let ops = batch_ops(files, embeddings);
    let at = Seq::new(
        files.len(),
        |k: int|
            first_ops(files, embeddings, k).len() + if files[k].is_update {
                1int
            } else {
                0int
            },
    );
    lemma_first_prefix(files, embeddings, 0, n);
    assert(first_ops(files, embeddings, 0) =~= seq![OpView::Begin]);
    assert(first_ops(files, embeddings, n)[0] == first_ops(files, embeddings, 0)[0]);
    assert(ops[0] == first_ops(files, embeddings, n)[0]);
    assert forall|k: int| 0 <= k < files.len() implies {
        let file = files[k];
        let p = #[trigger] at[k];
        &&& 0 < p && p + 6 < ops.len()
        &&& file.is_update ==> ops[p - 1] == (OpView::DeleteChunksByDoc { doc_id: file.doc.id@ })
        &&& ops[p] == OpView::AddDocument(file.doc)
        &&& ops[p + 1] == (OpView::SetDocumentPath { doc_id: file.doc.id@, path: file.path@ })
        &&& ops[p + 2] == OpView::AddChunks(file.chunks@)
        &&& ops[p + 3] == (OpView::AddChunkDocuments {
            chunk_ids: chunk_ids_of(file.chunks@),
            doc_id: file.doc.id@,
        })
        &&& ops[p + 4] == (OpView::AddVectors {
            chunk_ids: chunk_ids_of(file.chunks@),
            embeddings: embeddings_of(files, embeddings, k),
        })
        &&& ops[p + 5] == (OpView::AddFtsChunks {
            chunk_ids: chunk_ids_of(file.chunks@),
            texts: text::views(file.tokenized_texts@),
        })
        &&& embeddings_of(files, embeddings, k).len() == file.chunks@.len()
        &&& forall|i: int|
            0 <= i < file.chunks@.len() ==> #[trigger] embeddings_of(files, embeddings, k)[i]
                == embeddings[chunk_offset(files, k) + i]
    } by {
        lemma_file_stands(files, embeddings, k);
        law_vectors_match_chunks(files, embeddings, k);
    }
    assert forall|k: int| 0 <= k < files.len() implies {
        let end = (#[trigger] at[k]) + 6;
        &&& (k + 1) % 5 == 0 || k + 1 == files.len() <==> ops[end] is Commit
        &&& (k + 1) % 5 == 0 ==> ops[end + 1] is Begin
        &&& k + 1 == files.len() && (k + 1) % 5 == 0 ==> ops.len() == end + 2
        &&& k + 1 == files.len() && (k + 1) % 5 != 0 ==> ops.len() == end + 1
        &&& k + 1 < files.len() ==> at[k + 1] == end + (if (k + 1) % 5 == 0 {
            2int
        } else {
            0int
        }) + (if files[k + 1].is_update {
            1int
        } else {
            0int
        })
    } by {
        lemma_file_stands(files, embeddings, k);
    }
    at
}

/// An operation on the store says what it holds, all of it and in order.
pub proof fn law_operations_say_what_they_hold(op: StoreOp)
    ensures
        op is Begin <==> op@ is Begin,
        op is Commit <==> op@ is Commit,
        op matches StoreOp::AddDocument(doc) ==> op@ == OpView::AddDocument(doc),
        op matches StoreOp::SetDocumentPath { doc_id, path } ==> op@ == (OpView::SetDocumentPath {
            doc_id: doc_id@,
            path: path@,
        }),
        op matches StoreOp::DeleteDocument { doc_id } ==> op@ == (OpView::DeleteDocument {
            doc_id: doc_id@,
        }),
        op matches StoreOp::AddChunks(chunks) ==> op@ == OpView::AddChunks(chunks@),
        op matches StoreOp::DeleteChunksByDoc { doc_id } ==> op@ == (OpView::DeleteChunksByDoc {
            doc_id: doc_id@,
        }),
        op matches StoreOp::AddChunkDocuments { chunk_ids, doc_id } ==> {
            &&& op@ matches OpView::AddChunkDocuments { chunk_ids: ids, doc_id: d }
            &&& d == doc_id@
            &&& ids.len() == chunk_ids@.len()
            &&& forall|i: int| 0 <= i < ids.len() ==> #[trigger] ids[i] == chunk_ids@[i]@
        },
        op matches StoreOp::AddVectors { chunk_ids, embeddings } ==> {
            &&& op@ matches OpView::AddVectors { chunk_ids: ids, embeddings: stored }
            &&& ids.len() == chunk_ids@.len()
            &&& forall|i: int| 0 <= i < ids.len() ==> #[trigger] ids[i] == chunk_ids@[i]@
            &&& stored.len() == embeddings@.len()
            &&& forall|i: int| 0 <= i < stored.len() ==> #[trigger] stored[i] == embeddings@[i]@
        },
        op matches StoreOp::AddFtsChunks { chunk_ids, texts } ==> {
            &&& op@ matches OpView::AddFtsChunks { chunk_ids: ids, texts: words }
            &&& ids.len() == chunk_ids@.len()
            &&& forall|i: int| 0 <= i < ids.len() ==> #[trigger] ids[i] == chunk_ids@[i]@
            &&& words.len() == texts@.len()
            &&& forall|i: int| 0 <= i < words.len() ==> #[trigger] words[i] == texts@[i]@
        },
{
}

} // verus!
