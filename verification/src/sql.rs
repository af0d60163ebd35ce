//! The statements that the index store runs.

use vstd::prelude::*;

use crate::text;

verus! {

/// Name of the database file in a workspace.
pub const DB_FILE_NAME: &'static str = "semquery.db";

/// Settings of a database in a file.
pub const FILE_SETTINGS: &'static str = "PRAGMA busy_timeout = 5000; PRAGMA foreign_keys = ON; \
PRAGMA journal_mode = WAL; PRAGMA synchronous = NORMAL; PRAGMA cache_size = -64000;";

/// Settings of a database in memory.
pub const MEMORY_SETTINGS: &'static str = "PRAGMA busy_timeout = 5000; PRAGMA foreign_keys = ON; \
PRAGMA synchronous = NORMAL; PRAGMA cache_size = -64000;";

/// All tables but the one for vectors, whose shape depends on the embedding
/// model. Chunks are stored once, however many documents hold them, so which
/// documents a chunk belongs to is kept apart from it.
pub const CREATE_TABLES: &'static str = "
CREATE TABLE IF NOT EXISTS documents (
  doc_id       TEXT PRIMARY KEY,  -- stable document identifier
  content_hash TEXT NOT NULL,     -- SHA-256 of the content; drives incremental reindexing
  content_size INTEGER NOT NULL,  -- byte length of the content
  indexed_at   TEXT NOT NULL      -- RFC 3339 UTC timestamp of the last successful index
);
CREATE TABLE IF NOT EXISTS document_paths (
  -- Keeps the mutable file system path apart from the stable document id.
  doc_id     TEXT PRIMARY KEY,
  file_path  TEXT NOT NULL UNIQUE,
  FOREIGN KEY (doc_id) REFERENCES documents(doc_id) ON DELETE CASCADE
);
CREATE TABLE IF NOT EXISTS chunks (
  chunk_id   TEXT PRIMARY KEY,  -- SHA-256 of `text`
  text       TEXT NOT NULL,     -- full original text actually embedded
  start_byte INTEGER NOT NULL,  -- byte offset in the source file (inclusive)
  end_byte   INTEGER NOT NULL   -- byte offset in the source file (exclusive)
);
CREATE TABLE IF NOT EXISTS chunk_documents (
  -- Every pair of a chunk and a document that holds it, so that deleting one
  -- document leaves a chunk that another one still holds.
  chunk_id  TEXT NOT NULL,
  doc_id    TEXT NOT NULL,
  PRIMARY KEY (chunk_id, doc_id),
  FOREIGN KEY (chunk_id) REFERENCES chunks(chunk_id) ON DELETE CASCADE,
  FOREIGN KEY (doc_id) REFERENCES documents(doc_id) ON DELETE CASCADE
);
CREATE TABLE IF NOT EXISTS model_versions (
  -- The models that produced what is stored. After a change of the embedding
  -- model the stored vectors are stale.
  role     TEXT PRIMARY KEY,
  repo_id  TEXT NOT NULL,
  filename TEXT NOT NULL,
  revision TEXT NOT NULL,
  checksum TEXT
);
CREATE VIRTUAL TABLE IF NOT EXISTS fts_chunks USING fts5(
  -- Holds the words of the chunks with spaces between them, not the raw text.
  chunk_id,
  text,
  tokenize='unicode61'
);
CREATE TABLE IF NOT EXISTS collections (
  name TEXT PRIMARY KEY,
  path TEXT NOT NULL
);
CREATE TABLE IF NOT EXISTS meta (
  key   TEXT PRIMARY KEY,
  value TEXT NOT NULL
);
CREATE INDEX IF NOT EXISTS idx_chunk_documents_doc_id ON chunk_documents(doc_id);";

pub const FIND_VECTOR_TABLE: &'static str =
    "SELECT sql FROM sqlite_master WHERE type='table' AND name='vec_chunks'";

pub const INSERT_DOCUMENT: &'static str =
    "INSERT OR REPLACE INTO documents (doc_id, content_hash, content_size, indexed_at) \
VALUES (?1, ?2, ?3, ?4)";

pub const INSERT_CHUNK: &'static str =
    "INSERT OR IGNORE INTO chunks (chunk_id, text, start_byte, end_byte) VALUES (?1, ?2, ?3, ?4)";

pub const INSERT_CHUNK_DOCUMENT: &'static str =
    "INSERT OR IGNORE INTO chunk_documents (chunk_id, doc_id) VALUES (?1, ?2)";

pub const INSERT_VECTOR: &'static str =
    "INSERT OR REPLACE INTO vec_chunks (chunk_id, embedding) VALUES (?1, ?2)";

/// Adds the words of a chunk, unless they are there already: a full-text table
/// has no key that would keep a second row out.
pub const INSERT_FTS: &'static str =
    "INSERT INTO fts_chunks (chunk_id, text) SELECT ?1, ?2 \
WHERE NOT EXISTS (SELECT 1 FROM fts_chunks WHERE chunk_id = ?1)";

pub const INSERT_DOCUMENT_PATH: &'static str =
    "INSERT OR REPLACE INTO document_paths (doc_id, file_path) VALUES (?1, ?2)";

pub const DELETE_DOCUMENT_PATH: &'static str = "DELETE FROM document_paths WHERE doc_id = ?1";

pub const DELETE_DOCUMENT: &'static str = "DELETE FROM documents WHERE doc_id = ?1";

pub const DELETE_CHUNK_DOCUMENTS: &'static str = "DELETE FROM chunk_documents WHERE doc_id = ?1";

/// Deletes the vectors of chunks that no document holds.
pub const DELETE_ORPHANED_VECTORS: &'static str =
    "DELETE FROM vec_chunks WHERE chunk_id IN (SELECT chunk_id FROM chunks \
WHERE chunk_id NOT IN (SELECT chunk_id FROM chunk_documents))";

/// Deletes the full-text entries of chunks that no document holds.
pub const DELETE_ORPHANED_FTS: &'static str =
    "DELETE FROM fts_chunks WHERE chunk_id IN (SELECT chunk_id FROM chunks \
WHERE chunk_id NOT IN (SELECT chunk_id FROM chunk_documents))";

/// Deletes the chunks that no document holds.
pub const DELETE_ORPHANED_CHUNKS: &'static str =
    "DELETE FROM chunks WHERE chunk_id NOT IN (SELECT chunk_id FROM chunk_documents)";

pub const SET_MODEL_VERSION: &'static str =
    "INSERT OR REPLACE INTO model_versions (role, repo_id, filename, revision, checksum) \
VALUES (?1, ?2, ?3, ?4, ?5)";

pub const GET_DOCUMENT: &'static str =
    "SELECT doc_id, content_hash, content_size, indexed_at FROM documents WHERE doc_id = ?1";

pub const LIST_DOCUMENTS: &'static str =
    "SELECT doc_id, content_hash, content_size, indexed_at FROM documents";

pub const SEARCH_VECTORS: &'static str =
    "SELECT chunk_id, distance FROM vec_chunks WHERE embedding MATCH ?1 AND k = ?2 ORDER BY distance";

pub const SEARCH_TEXT: &'static str =
    "SELECT chunk_id, bm25(fts_chunks) AS score FROM fts_chunks WHERE fts_chunks MATCH ?1 \
ORDER BY rank LIMIT ?2";

pub const GET_MODEL_VERSION: &'static str =
    "SELECT repo_id, filename, revision, checksum FROM model_versions WHERE role = ?1";

pub const LIST_COLLECTIONS: &'static str = "SELECT name, path FROM collections";

pub const COUNT_CHUNKS: &'static str = "SELECT COUNT(*) FROM chunks";

pub const GET_META: &'static str = "SELECT value FROM meta WHERE key = ?1";

pub const SET_META: &'static str = "INSERT OR REPLACE INTO meta (key, value) VALUES (?1, ?2)";

pub const ADD_COLLECTION: &'static str =
    "INSERT OR REPLACE INTO collections (name, path) VALUES (?1, ?2)";

pub const DELETE_COLLECTION: &'static str = "DELETE FROM collections WHERE name = ?1";

pub const CLEAR_COLLECTIONS: &'static str = "DELETE FROM collections";

pub const BEGIN: &'static str = "BEGIN";

pub const COMMIT: &'static str = "COMMIT";

pub const ROLLBACK: &'static str = "ROLLBACK";

/// The column type of vectors.
pub open spec fn vector_type_text(dimension: nat) -> Seq<char> {
    "FLOAT["@ + text::decimal(dimension) + "]"@
}

/// The column type of vectors.
pub fn vector_type(dimension: usize) -> (r: String)
    ensures
        r@ == vector_type_text(dimension as nat),
{
    let mut out = "FLOAT[".to_string();
    text::push_decimal(&mut out, dimension as u128);
    out.append("]");
    out
}

/// The statement that creates the table for vectors.
pub fn create_vector_table(dimension: usize) -> (r: String)
    ensures
        r@ == "CREATE VIRTUAL TABLE IF NOT EXISTS vec_chunks USING vec0(chunk_id TEXT PRIMARY KEY, embedding "@
            + vector_type_text(dimension as nat) + " distance_metric=cosine);"@,
{
    let column = vector_type(dimension);
    text::concat3(
        "CREATE VIRTUAL TABLE IF NOT EXISTS vec_chunks USING vec0(chunk_id TEXT PRIMARY KEY, embedding ",
        column.as_str(),
        " distance_metric=cosine);",
    )
}

/// Places for `n` values.
pub open spec fn placeholders_text(n: nat) -> Seq<char> {
    text::joined(Seq::new(n, |i: int| "?"@), ","@)
}

/// Places for `n` values.
pub fn placeholders(n: usize) -> (r: String)
    ensures
        r@ == placeholders_text(n as nat),
{
    let mut marks: Vec<String> = Vec::new();
    let mut i: usize = 0;
    while i < n
        invariant
            i <= n,
            marks@.len() == i,
            forall|k: int| 0 <= k < i ==> (#[trigger] marks@[k])@ == "?"@,
        decreases n - i,
    {
        marks.push("?".to_string());
        i += 1;
    }
    assert(text::views(marks@) =~= Seq::new(n as nat, |i: int| "?"@));
    text::join(&marks, ",")
}

/// The query for the paths of `n` documents.
pub fn select_document_paths(n: usize) -> (r: String)
    ensures
        r@ == "SELECT doc_id, file_path FROM document_paths WHERE doc_id IN ("@ + placeholders_text(
            n as nat,
        ) + ")"@,
{
    let marks = placeholders(n);
    text::concat3(
        "SELECT doc_id, file_path FROM document_paths WHERE doc_id IN (",
        marks.as_str(),
        ")",
    )
}

/// The start of the query for chunks. Of the documents that hold a chunk, the
/// one with the smallest id stands for all.
pub const SELECT_CHUNKS: &'static str =
    "SELECT c.chunk_id, (SELECT cd.doc_id FROM chunk_documents cd WHERE cd.chunk_id = c.chunk_id \
ORDER BY cd.doc_id LIMIT 1) AS doc_id, c.text, c.start_byte, c.end_byte FROM chunks c \
WHERE c.chunk_id IN (";

/// The query for `n` chunks.
pub fn select_chunks(n: usize) -> (r: String)
    ensures
        r@ == SELECT_CHUNKS@ + placeholders_text(n as nat) + ")"@,
{
    let marks = placeholders(n);
    text::concat3(SELECT_CHUNKS, marks.as_str(), ")")
}

proof fn lemma_marks(n: nat)
    requires
        n > 0,
    ensures
        ({
            let marks = text::joined(Seq::new(n, |i: int| "?"@), ","@);
            &&& marks.len() == 2 * n - 1
            &&& forall|i: int|
                0 <= i < marks.len() ==> #[trigger] marks[i] == if i % 2 == 0 {
                    '?'
                } else {
                    ','
                }
        }),
    decreases n,
{
    reveal_strlit("?");
    reveal_strlit(",");
    let parts = Seq::new(n, |i: int| "?"@);
    let marks = text::joined(parts, ","@);
    if n == 1 {
        assert(marks == parts[0]);
    } else {
        let fewer = Seq::new((n - 1) as nat, |i: int| "?"@);
        lemma_marks((n - 1) as nat);
        assert(parts.drop_last() =~= fewer);
        assert(parts.last() == "?"@);
        assert(marks == text::joined(fewer, ","@) + ","@ + "?"@);
    }
}

/// There is one place for each value, with a comma between each two and nowhere
/// else.
pub proof fn law_one_place_for_each_value(n: nat)
    ensures
        n == 0 ==> placeholders_text(n).len() == 0,
        n > 0 ==> placeholders_text(n).len() == 2 * n - 1,
        forall|i: int|
            0 <= i < placeholders_text(n).len() ==> #[trigger] placeholders_text(n)[i] == if i % 2
                == 0 {
                '?'
            } else {
                ','
            },
{
    if n > 0 {
        lemma_marks(n);
    }
}

/// The column type of vectors has their dimension in square brackets.
pub proof fn law_column_type_names_the_dimension(dimension: nat)
    ensures
        vector_type_text(dimension) == "FLOAT"@ + seq!['['] + text::decimal(dimension) + seq![']'],
{
    reveal_strlit("FLOAT[");
    reveal_strlit("FLOAT");
    reveal_strlit("]");
    assert("FLOAT["@ =~= "FLOAT"@ + seq!['[']);
    assert(vector_type_text(dimension) =~= "FLOAT"@ + seq!['['] + text::decimal(dimension)
        + seq![']']);
}

} // verus!
