//! Between the index and the rows that the store keeps.

use chrono::{DateTime, Utc};
use vstd::bytes::*;
use vstd::prelude::*;

use crate::error::{DocqError, Result, StoreError};
use crate::models::{Chunk, Document, ScoredId, Timestamp};
use crate::score::Score;
use crate::sql;
use crate::text;

verus! {

// ---- time ----

/// What `DateTime::to_rfc3339` of the `chrono` crate writes for a point in time,
/// or `None` where `DateTime::from_timestamp` knows no such point.
pub uninterp spec fn rfc3339_text(secs: i64, nanos: u32) -> Option<Seq<char>>;

/// What `DateTime::parse_from_rfc3339` of the `chrono` crate reads: seconds and
/// nanoseconds since the Unix epoch, or the message of its error.
pub uninterp spec fn rfc3339_time(s: Seq<char>) -> std::result::Result<(i64, u32), Seq<char>>;

/// Whether a point in time lies in the years 0 to 9999.
pub open spec fn has_four_digit_year(t: Timestamp) -> bool {
    -62_167_219_200 <= t.secs <= 253_402_300_799
}

/// `DateTime::to_rfc3339` of the `chrono` crate, on the point in time that
/// `DateTime::from_timestamp` makes.
///
/// The text depends on the point in time alone. There is one for every point in
/// the years 0 to 9999, and `DateTime::parse_from_rfc3339` reads it back as the
/// same point. The text itself is not stated: it takes a calendar to say.
#[verifier::external_body]
fn format_time(t: Timestamp) -> (r: Option<String>)
    ensures
        match r {
            Some(s) => rfc3339_text(t.secs, t.nanos) == Some(s@),
            None => rfc3339_text(t.secs, t.nanos) is None,
        },
        has_four_digit_year(t) && t.nanos < 1_000_000_000 ==> r is Some,
        has_four_digit_year(t) && r is Some ==> rfc3339_time(r->0@) is Ok && rfc3339_time(
            r->0@,
        )->Ok_0 == (t.secs, t.nanos),
{
    DateTime::<Utc>::from_timestamp(t.secs, t.nanos).map(|d| d.to_rfc3339())
}

/// `DateTime::parse_from_rfc3339` of the `chrono` crate, in UTC.
///
/// The point in time, or the message of the error, depends on the text alone.
#[verifier::external_body]
fn parse_time(s: &str) -> (r: std::result::Result<Timestamp, String>)
    ensures
        match r {
            Ok(t) => rfc3339_time(s@) is Ok && rfc3339_time(s@)->Ok_0 == (t.secs, t.nanos),
            Err(e) => rfc3339_time(s@) is Err && rfc3339_time(s@)->Err_0 == e@,
        },
{
    match DateTime::parse_from_rfc3339(s) {
        Ok(d) => Ok(Timestamp { secs: d.timestamp(), nanos: d.timestamp_subsec_nanos() }),
        Err(e) => Err(e.to_string()),
    }
}

// ---- documents ----

/// A row of the table of documents.
#[derive(Debug)]
pub struct DocumentRow {
    pub doc_id: String,
    pub content_hash: String,
    pub content_size: i64,
    pub indexed_at: String,
}

/// Whether `doc` is what the row holds, where its timestamp is `time`.
pub open spec fn is_document_of(row: DocumentRow, time: (i64, u32), doc: Document) -> bool {
    &&& doc.id@ == row.doc_id@
    &&& doc.content_hash@ == row.content_hash@
    &&& doc.content_size == row.content_size as usize
    &&& doc.indexed_at.secs == time.0
    &&& doc.indexed_at.nanos == time.1
}

/// Whether `r` is the document in a row, or the failure to read its timestamp.
pub open spec fn reads_document(row: DocumentRow, r: Result<Document>) -> bool {
    match rfc3339_time(row.indexed_at@) {
        Ok(time) => r matches Ok(doc) && is_document_of(row, time, doc),
        Err(message) => r matches Err(DocqError::Store(StoreError::InvalidTimestamp(m))) && m@
            == message,
    }
}

/// The row for a document. There is none for a time that cannot be written.
/// Reading the row back gives the document, in the years 0 to 9999.
pub fn document_row(doc: &Document) -> (r: Option<DocumentRow>)
    ensures
        r is Some <==> rfc3339_text(doc.indexed_at.secs, doc.indexed_at.nanos) is Some,
        r matches Some(row) ==> row.doc_id@ == doc.id@ && row.content_hash@ == doc.content_hash@
            && row.content_size == doc.content_size as i64 && rfc3339_text(
            doc.indexed_at.secs,
            doc.indexed_at.nanos,
        ) == Some(row.indexed_at@),
        has_four_digit_year(doc.indexed_at) && doc.indexed_at.nanos < 1_000_000_000 ==> r is Some,
        has_four_digit_year(doc.indexed_at) && r is Some ==> reads_document(r->0, Ok(*doc)),
{
    match format_time(doc.indexed_at) {
        Some(indexed_at) => {
            proof {
                let n = doc.content_size;
                assert((n as i64) as usize == n) by (bit_vector);
            }
            Some(
                DocumentRow {
                    doc_id: doc.id.clone(),
                    content_hash: doc.content_hash.clone(),
                    content_size: doc.content_size as i64,
                    indexed_at,
                },
            )
        },
        None => None,
    }
}

/// The document in a row, where reading its timestamp gave `time`.
pub fn document_at(row: DocumentRow, time: std::result::Result<Timestamp, String>) -> (r: Result<
    Document,
>)
    ensures
        match time {
            Ok(t) => r matches Ok(doc) && is_document_of(row, (t.secs, t.nanos), doc),
            Err(e) => r == Err::<Document, DocqError>(
                DocqError::Store(StoreError::InvalidTimestamp(e)),
            ),
        },
{
    match time {
        Ok(indexed_at) => Ok(
            Document {
                id: row.doc_id,
                content_hash: row.content_hash,
                content_size: row.content_size as usize,
                indexed_at,
            },
        ),
        Err(e) => Err(DocqError::Store(StoreError::InvalidTimestamp(e))),
    }
}

/// The document in a row.
pub fn document_of(row: DocumentRow) -> (r: Result<Document>)
    ensures
        reads_document(row, r),
{
    let time = parse_time(row.indexed_at.as_str());
    document_at(row, time)
}

/// The documents in the rows, or the first failure to read one.
pub fn documents_of(rows: Vec<DocumentRow>) -> (r: Result<Vec<Document>>)
    ensures
        match r {
            Ok(docs) => docs@.len() == rows@.len() && forall|i: int|
                0 <= i < rows@.len() ==> reads_document(#[trigger] rows@[i], Ok(docs@[i])),
            Err(e) => exists|i: int|
                0 <= i < rows@.len() && reads_document(#[trigger] rows@[i], Err(e)) && forall|k: int|
                    0 <= k < i ==> rfc3339_time((#[trigger] rows@[k]).indexed_at@) is Ok,
        },
{
    let mut docs: Vec<Document> = Vec::new();
    for row in it: rows
        invariant
            it.seq() == rows@,
            docs@.len() == it.index(),
            forall|i: int|
                0 <= i < it.index() ==> reads_document(#[trigger] rows@[i], Ok(docs@[i])),
    {
        let ghost i = it.index() as int;
        assert(row == rows@[i]);
        match document_of(row) {
            Ok(doc) => {
                docs.push(doc);
            },
            Err(e) => {
                assert(reads_document(rows@[i], Err(e)));
                return Err(e);
            },
        }
    }
    Ok(docs)
}

// ---- chunks ----

/// A row of the table of chunks, with a document that holds the chunk.
#[derive(Debug)]
pub struct ChunkRow {
    pub chunk_id: String,
    pub doc_id: Option<String>,
    pub text: String,
    pub start_byte: i64,
    pub end_byte: i64,
}

/// Whether `chunk` is what the row holds. A chunk that no document holds has an
/// empty document id.
pub open spec fn is_chunk_of(row: ChunkRow, chunk: Chunk) -> bool {
    &&& chunk.id@ == row.chunk_id@
    &&& chunk.doc_id@ == match row.doc_id {
        Some(id) => id@,
        None => Seq::empty(),
    }
    &&& chunk.text@ == row.text@
    &&& chunk.byte_range.start == row.start_byte as usize
    &&& chunk.byte_range.end == row.end_byte as usize
}

/// The chunk in a row.
pub fn chunk_of(row: ChunkRow) -> (r: Chunk)
    ensures
        is_chunk_of(row, r),
{
    let doc_id = match row.doc_id {
        Some(id) => id,
        None => String::new(),
    };
    assert(Seq::<char>::empty() =~= ""@) by {
        reveal_strlit("");
    }
    Chunk {
        id: row.chunk_id,
        doc_id,
        text: row.text,
        byte_range: row.start_byte as usize..row.end_byte as usize,
    }
}

/// The chunks in the rows, in order.
pub fn chunks_of(rows: Vec<ChunkRow>) -> (r: Vec<Chunk>)
    ensures
        r@.len() == rows@.len(),
        forall|i: int| 0 <= i < rows@.len() ==> is_chunk_of(#[trigger] rows@[i], r@[i]),
{
    let mut chunks: Vec<Chunk> = Vec::new();
    for row in it: rows
        invariant
            it.seq() == rows@,
            chunks@.len() == it.index(),
            forall|i: int| 0 <= i < it.index() ==> is_chunk_of(#[trigger] rows@[i], chunks@[i]),
    {
        assert(row == rows@[it.index() as int]);
        chunks.push(chunk_of(row));
    }
    chunks
}

/// The row for a chunk of a document. Reading it back gives the chunk.
pub fn chunk_row(chunk: &Chunk) -> (r: ChunkRow)
    ensures
        is_chunk_of(r, *chunk),
        r.doc_id is Some,
        r.start_byte == chunk.byte_range.start as i64,
        r.end_byte == chunk.byte_range.end as i64,
{
    proof {
        let (a, b) = (chunk.byte_range.start, chunk.byte_range.end);
        assert((a as i64) as usize == a) by (bit_vector);
        assert((b as i64) as usize == b) by (bit_vector);
    }
    ChunkRow {
        chunk_id: chunk.id.clone(),
        doc_id: Some(chunk.doc_id.clone()),
        text: chunk.text.clone(),
        start_byte: chunk.byte_range.start as i64,
        end_byte: chunk.byte_range.end as i64,
    }
}

// ---- vectors and words ----

/// A vector as bytes: the bits of each number, least significant byte first.
pub open spec fn vector_bytes(vector: Seq<u32>) -> Seq<u8>
    decreases vector.len(),
{
    if vector.len() == 0 {
        Seq::empty()
    } else {
        vector_bytes(vector.drop_last()) + spec_u32_to_le_bytes(vector.last())
    }
}

/// The bytes that stand for a vector.
pub fn embedding_to_bytes(vector: &[u32]) -> (r: Vec<u8>)
    ensures
        r@ == vector_bytes(vector@),
{
    let mut bytes: Vec<u8> = Vec::new();
    let mut i: usize = 0;
    assert(vector@.take(0) =~= Seq::empty());
    while i < vector.len()
        invariant
            i <= vector@.len(),
            bytes@ == vector_bytes(vector@.take(i as int)),
        decreases vector@.len() - i,
    {
        let mut number = u32_to_le_bytes(vector[i]);
        assert(vector@.take(i + 1).drop_last() =~= vector@.take(i as int));
        bytes.append(&mut number);
        i += 1;
    }
    assert(vector@.take(vector@.len() as int) =~= vector@);
    bytes
}

/// No number of a vector gets lost in its bytes: four bytes for each, from which
/// it can be read back.
pub proof fn law_vector_bytes(vector: Seq<u32>, i: int)
    requires
        0 <= i < vector.len(),
    ensures
        vector_bytes(vector).len() == 4 * vector.len(),
        spec_u32_from_le_bytes(vector_bytes(vector).subrange(4 * i, 4 * i + 4)) == vector[i],
    decreases vector.len(),
{
    lemma_auto_spec_u32_to_from_le_bytes();
    let rest = vector.drop_last();
    lemma_vector_bytes_len(rest);
    let bytes = vector_bytes(vector);
    let last = spec_u32_to_le_bytes(vector.last());
    if i < rest.len() {
        law_vector_bytes(rest, i);
        assert(bytes.subrange(4 * i, 4 * i + 4) =~= vector_bytes(rest).subrange(4 * i, 4 * i + 4));
    } else {
        assert(bytes.subrange(4 * i, 4 * i + 4) =~= last);
    }
}

proof fn lemma_vector_bytes_len(vector: Seq<u32>)
    ensures
        vector_bytes(vector).len() == 4 * vector.len(),
    decreases vector.len(),
{
    lemma_auto_spec_u32_to_from_le_bytes();
    if vector.len() > 0 {
        lemma_vector_bytes_len(vector.drop_last());
    }
}

/// The failure that two lists which belong together differ in length.
pub open spec fn is_mismatch(e: DocqError, what: Seq<char>, a: nat, b: nat) -> bool {
    e matches DocqError::Store(StoreError::ArgumentMismatch { what: w, a: x, b: y }) && w@ == what
        && x == a && y == b
}

/// The vectors to store for chunks, as bytes.
pub fn vector_rows(chunk_ids: &[String], embeddings: &[Vec<u32>]) -> (r: Result<
    Vec<(String, Vec<u8>)>,
>)
    ensures
        match r {
            Ok(rows) => chunk_ids@.len() == embeddings@.len() && rows@.len() == chunk_ids@.len()
                && forall|i: int|
                0 <= i < rows@.len() ==> (#[trigger] rows@[i]).0@ == chunk_ids@[i]@ && rows@[i].1@
                    == vector_bytes(embeddings@[i]@),
            Err(e) => chunk_ids@.len() != embeddings@.len() && is_mismatch(
                e,
                "chunk_ids and embeddings"@,
                chunk_ids@.len(),
                embeddings@.len(),
            ),
        },
{
    if chunk_ids.len() != embeddings.len() {
        return Err(
            DocqError::Store(
                StoreError::ArgumentMismatch {
                    what: "chunk_ids and embeddings".to_string(),
                    a: chunk_ids.len(),
                    b: embeddings.len(),
                },
            ),
        );
    }
    let mut rows: Vec<(String, Vec<u8>)> = Vec::new();
    let mut i: usize = 0;
    while i < chunk_ids.len()
        invariant
            i <= chunk_ids@.len() == embeddings@.len(),
            rows@.len() == i,
            forall|k: int|
                0 <= k < i ==> (#[trigger] rows@[k]).0@ == chunk_ids@[k]@ && rows@[k].1@
                    == vector_bytes(embeddings@[k]@),
        decreases chunk_ids@.len() - i,
    {
        rows.push((chunk_ids[i].clone(), embedding_to_bytes(embeddings[i].as_slice())));
        i += 1;
    }
    Ok(rows)
}

/// The words to store for chunks.
pub fn fts_rows(chunk_ids: &[String], tokenized_texts: &[String]) -> (r: Result<
    Vec<(String, String)>,
>)
    ensures
        match r {
            Ok(rows) => chunk_ids@.len() == tokenized_texts@.len() && rows@.len()
                == chunk_ids@.len() && forall|i: int|
                0 <= i < rows@.len() ==> (#[trigger] rows@[i]).0@ == chunk_ids@[i]@ && rows@[i].1@
                    == tokenized_texts@[i]@,
            Err(e) => chunk_ids@.len() != tokenized_texts@.len() && is_mismatch(
                e,
                "chunk_ids and tokenized_texts"@,
                chunk_ids@.len(),
                tokenized_texts@.len(),
            ),
        },
{
    if chunk_ids.len() != tokenized_texts.len() {
        return Err(
            DocqError::Store(
                StoreError::ArgumentMismatch {
                    what: "chunk_ids and tokenized_texts".to_string(),
                    a: chunk_ids.len(),
                    b: tokenized_texts.len(),
                },
            ),
        );
    }
    let mut rows: Vec<(String, String)> = Vec::new();
    let mut i: usize = 0;
    while i < chunk_ids.len()
        invariant
            i <= chunk_ids@.len() == tokenized_texts@.len(),
            rows@.len() == i,
            forall|k: int|
                0 <= k < i ==> (#[trigger] rows@[k]).0@ == chunk_ids@[k]@ && rows@[k].1@
                    == tokenized_texts@[k]@,
        decreases chunk_ids@.len() - i,
    {
        rows.push((chunk_ids[i].clone(), tokenized_texts[i].clone()));
        i += 1;
    }
    Ok(rows)
}

/// The results of a full-text search. The store gives the best row the lowest
/// score; here higher is better, as in all rankings.
pub fn text_scores(rows: Vec<(String, Score)>) -> (r: Vec<ScoredId>)
    ensures
        r@.len() == rows@.len(),
        forall|i: int|
            0 <= i < rows@.len() ==> (#[trigger] r@[i]).id@ == rows@[i].0@ && r@[i].score
                == rows@[i].1.negation(),
{
    let mut out: Vec<ScoredId> = Vec::new();
    for row in it: rows
        invariant
            it.seq() == rows@,
            out@.len() == it.index(),
            forall|i: int|
                0 <= i < it.index() ==> (#[trigger] out@[i]).id@ == rows@[i].0@ && out@[i].score
                    == rows@[i].1.negation(),
    {
        assert(row == rows@[it.index() as int]);
        let (id, score) = row;
        out.push(ScoredId { id, score: score.negated() });
    }
    out
}

// ---- schema ----

/// Whether the table for vectors has to be created, given the statement that
/// created it, if it exists. A table for vectors of another dimension is an
/// error. Without a dimension no table is asked for.
pub fn needs_vector_table(existing: Option<&str>, dimension: usize) -> (r: Result<bool>)
    ensures
        match (existing, r) {
            (_, Ok(needed)) if dimension == 0 => !needed,
            (None, Ok(needed)) => needed,
            (Some(statement), Ok(needed)) => !needed && text::occurs_in(
                sql::vector_type_text(dimension as nat),
                statement@,
            ),
            (Some(statement), Err(e)) => dimension != 0 && !text::occurs_in(
                sql::vector_type_text(dimension as nat),
                statement@,
            ) && (e matches DocqError::Store(StoreError::SchemaMismatch { expected }) && expected@
                == sql::vector_type_text(dimension as nat)),
            (None, Err(_)) => false,
        },
{
    if dimension == 0 {
        return Ok(false);
    }
    let expected = sql::vector_type(dimension);
    match existing {
        Some(statement) => {
            if text::contains(statement, expected.as_str()) {
                Ok(false)
            } else {
                Err(DocqError::Store(StoreError::SchemaMismatch { expected }))
            }
        },
        None => Ok(true),
    }
}

/// A table for vectors is taken for one of another dimension never, and for one
/// of its own dimension always, whatever stands around the column type in the
/// statement that created it.
pub proof fn law_schema_tells_dimensions_apart(
    before: Seq<char>,
    a: nat,
    after: Seq<char>,
    b: nat,
)
    requires
        !before.contains('['),
        !after.contains('['),
    ensures
        text::occurs_in(sql::vector_type_text(b), before + sql::vector_type_text(a) + after) <==> a
            == b,
{
    reveal_strlit("FLOAT[");
    reveal_strlit("]");
    text::lemma_decimal_value(a);
    text::lemma_decimal_value(b);
    let (ta, tb) = (sql::vector_type_text(a), sql::vector_type_text(b));
    let (da, db) = (text::decimal(a), text::decimal(b));
    let s = before + ta + after;
    if a == b {
        assert(s.subrange(before.len() as int, (before.len() + ta.len()) as int) =~= tb);
    }
    if text::occurs_in(tb, s) {
        let (p, q) = choose|p: int, q: int|
            0 <= p <= q <= s.len() && #[trigger] s.subrange(p, q) == tb;
        let found = s.subrange(p, q);
        assert(found.len() == q - p);
        assert(tb.len() == db.len() + 7);
        assert(found[5] == '[');
        assert(found[5] == s[p + 5]);
        let at = p + 5 - before.len();
        if at < 0 {
            assert(before[p + 5] == '[');
            assert(before.contains('['));
        } else if at >= ta.len() {
            assert(after[at - ta.len()] == '[');
            assert(after.contains('['));
        } else if at < 5 {
            assert(ta[at] == "FLOAT["@[at]);
        } else if at > 5 {
            if at < 6 + da.len() {
                assert(ta[at] == da[at - 6]);
                assert(text::is_digit(da[at - 6]));
            } else {
                assert(ta[at] == ']');
            }
        }
        assert(p == before.len());
        assert forall|i: int| 0 <= i < tb.len() implies #[trigger] tb[i] == s[p + i] by {
            assert(found[i] == s[p + i]);
        }
        assert forall|i: int| 0 <= i < ta.len() implies #[trigger] ta[i] == s[p + i] by {}
        if da.len() < db.len() {
            let i = 6 + da.len() as int;
            assert(ta[i] == ']');
            assert(tb[i] == db[i - 6]);
            assert(text::is_digit(db[i - 6]));
        } else if db.len() < da.len() {
            let i = 6 + db.len() as int;
            assert(tb[i] == ']');
            assert(ta[i] == da[i - 6]);
            assert(text::is_digit(da[i - 6]));
        } else {
            assert forall|i: int| 0 <= i < da.len() implies da[i] == db[i] by {
                assert(ta[6 + i] == da[i]);
                assert(tb[6 + i] == db[i]);
            }
            assert(da =~= db);
        }
    }
}

// ---- transactions ----

/// The failure of a lock that another thread left poisoned.
pub fn poisoned() -> (r: StoreError)
    ensures
        r == StoreError::MutexPoisoned,
{
    StoreError::MutexPoisoned
}

/// A write transaction. It takes effect if it is committed, and is rolled back
/// otherwise.
#[derive(Debug)]
pub struct Transaction {
    committed: bool,
}

impl Transaction {
    pub closed spec fn is_committed(self) -> bool {
        self.committed
    }

    pub fn new() -> (r: Self)
        ensures
            !r.is_committed(),
    {
        Transaction { committed: false }
    }

    /// Whether the transaction may be committed: not twice.
    pub fn check_commit(&self) -> (r: Result<()>)
        ensures
            match r {
                Ok(()) => !self.is_committed(),
                Err(e) => self.is_committed() && e == DocqError::Store(
                    StoreError::TransactionAlreadyCommitted,
                ),
            },
    {
        if self.committed {
            Err(DocqError::Store(StoreError::TransactionAlreadyCommitted))
        } else {
            Ok(())
        }
    }

    /// Takes note of how committing went.
    pub fn commit_ended(&mut self, ok: bool)
        ensures
            final(self).is_committed() == (old(self).is_committed() || ok),
    {
        if ok {
            self.committed = true;
        }
    }

    /// Whether the transaction has to be rolled back at its end.
    pub fn rolls_back(&self) -> (r: bool)
        ensures
            r == !self.is_committed(),
    {
        !self.committed
    }
}

/// A document is read back from the fields of its row, each from its own, with
/// the time that its timestamp stands for; where that is no time, the reading
/// fails with what is wrong with it.
pub proof fn law_rows_of_documents(row: DocumentRow, r: Result<Document>)
    requires
        reads_document(row, r),
    ensures
        rfc3339_time(row.indexed_at@) matches Ok((secs, nanos)) ==> (r matches Ok(doc) && {
            &&& doc.id@ == row.doc_id@
            &&& doc.content_hash@ == row.content_hash@
            &&& row.content_size >= 0 ==> doc.content_size == row.content_size as usize
            &&& doc.indexed_at.secs == secs
            &&& doc.indexed_at.nanos == nanos
        }),
        rfc3339_time(row.indexed_at@) matches Err(message) ==> (
        r matches Err(DocqError::Store(StoreError::InvalidTimestamp(m))) && m@ == message),
{
}

/// A chunk is read back from the fields of its row, each from its own; one that no
/// document holds belongs to none.
pub proof fn law_rows_of_chunks(row: ChunkRow, chunk: Chunk)
    requires
        is_chunk_of(row, chunk),
    ensures
        chunk.id@ == row.chunk_id@,
        chunk.text@ == row.text@,
        row.doc_id matches Some(id) ==> chunk.doc_id@ == id@,
        row.doc_id is None ==> chunk.doc_id@.len() == 0,
        chunk.byte_range.start == row.start_byte as usize,
        chunk.byte_range.end == row.end_byte as usize,
{
}

/// The bytes of a vector are those of its numbers in order, of each the lowest
/// first.
pub proof fn law_vector_bytes_are_in_order(vector: Seq<u32>, number: u32)
    ensures
        vector_bytes(Seq::empty()) == Seq::<u8>::empty(),
        vector_bytes(vector.push(number)) == vector_bytes(vector) + spec_u32_to_le_bytes(number),
{
    assert(vector.push(number).drop_last() =~= vector);
}

/// Two lists that do not match are told with what they are and both lengths.
pub proof fn law_mismatch_tells_both_lengths(e: DocqError, what: Seq<char>, a: nat, b: nat)
    requires
        is_mismatch(e, what, a, b),
    ensures
        e matches DocqError::Store(StoreError::ArgumentMismatch { what: w, a: x, b: y }) && w@
            == what && x == a && y == b,
{
}

} // verus!
