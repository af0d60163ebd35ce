use rusqlite::{Connection, OptionalExtension};
use semquery::error::{DocqError, StoreError};
use semquery::models::{Chunk, Document, ModelRole, ModelSpec, Timestamp};
use semquery::score::Score;
use semquery::sql;
use semquery::storage::{
    chunk_of, chunk_row, chunks_of, document_of, document_row, documents_of, embedding_to_bytes,
    fts_rows, needs_vector_table, poisoned, text_scores, vector_rows, ChunkRow, DocumentRow,
    Transaction,
};

/// Stands in for the table of vectors, which takes an extension.
const PLAIN_VECTORS: &str = "CREATE TABLE vec_chunks (chunk_id TEXT PRIMARY KEY, embedding BLOB)";

fn open() -> Connection {
    let conn = Connection::open_in_memory().unwrap();
    conn.execute_batch(sql::MEMORY_SETTINGS).unwrap();
    conn.execute_batch(sql::CREATE_TABLES).unwrap();
    conn.execute_batch(PLAIN_VECTORS).unwrap();
    conn
}

fn make_doc(id: &str, content: &str) -> Document {
    Document {
        id: id.to_string(),
        content_hash: format!("hash-{content}"),
        content_size: content.len(),
        indexed_at: Timestamp { secs: 1_720_000_000, nanos: 123_456_789 },
    }
}

fn make_chunk(id: &str, doc_id: &str, text: &str, start: usize, end: usize) -> Chunk {
    Chunk {
        id: id.to_string(),
        doc_id: doc_id.to_string(),
        text: text.to_string(),
        byte_range: start..end,
    }
}

fn add_document(conn: &Connection, doc: &Document) {
    let row = document_row(doc).unwrap();
    conn.execute(
        sql::INSERT_DOCUMENT,
        (row.doc_id, row.content_hash, row.content_size, row.indexed_at),
    )
    .unwrap();
}

fn add_chunk(conn: &Connection, chunk: &Chunk, words: &str) {
    let row = chunk_row(chunk);
    conn.execute(
        sql::INSERT_CHUNK,
        (&row.chunk_id, &row.text, row.start_byte, row.end_byte),
    )
    .unwrap();
    conn.execute(sql::INSERT_CHUNK_DOCUMENT, (&row.chunk_id, row.doc_id.unwrap())).unwrap();
    let ids = [chunk.id.clone()];
    for (id, bytes) in vector_rows(&ids, &[vec![0.1_f32.to_bits(); 512]]).unwrap() {
        conn.execute(sql::INSERT_VECTOR, (id, bytes)).unwrap();
    }
    for (id, text) in fts_rows(&ids, &[words.to_string()]).unwrap() {
        conn.execute(sql::INSERT_FTS, (id, text)).unwrap();
    }
}

fn delete_chunks_by_doc(conn: &Connection, doc_id: &str) {
    conn.execute(sql::DELETE_CHUNK_DOCUMENTS, [doc_id]).unwrap();
    conn.execute(sql::DELETE_ORPHANED_VECTORS, []).unwrap();
    conn.execute(sql::DELETE_ORPHANED_FTS, []).unwrap();
    conn.execute(sql::DELETE_ORPHANED_CHUNKS, []).unwrap();
}

fn document_rows(conn: &Connection) -> Vec<DocumentRow> {
    let mut stmt = conn.prepare(sql::LIST_DOCUMENTS).unwrap();
    let rows = stmt
        .query_map([], |r| {
            Ok(DocumentRow {
                doc_id: r.get(0)?,
                content_hash: r.get(1)?,
                content_size: r.get(2)?,
                indexed_at: r.get(3)?,
            })
        })
        .unwrap();
    rows.map(|r| r.unwrap()).collect()
}

fn get_document(conn: &Connection, doc_id: &str) -> Option<Document> {
    let row = conn
        .query_row(sql::GET_DOCUMENT, [doc_id], |r| {
            Ok(DocumentRow {
                doc_id: r.get(0)?,
                content_hash: r.get(1)?,
                content_size: r.get(2)?,
                indexed_at: r.get(3)?,
            })
        })
        .optional()
        .unwrap();
    row.map(|r| document_of(r).unwrap())
}

fn get_chunks(conn: &Connection, ids: &[&str]) -> Vec<Chunk> {
    let mut stmt = conn.prepare(&sql::select_chunks(ids.len())).unwrap();
    let rows = stmt
        .query_map(rusqlite::params_from_iter(ids.iter()), |r| {
            Ok(ChunkRow {
                chunk_id: r.get(0)?,
                doc_id: r.get(1)?,
                text: r.get(2)?,
                start_byte: r.get(3)?,
                end_byte: r.get(4)?,
            })
        })
        .unwrap();
    chunks_of(rows.map(|r| r.unwrap()).collect())
}

fn search_text(conn: &Connection, query: &str, top_k: i64) -> Vec<(String, f32)> {
    let mut stmt = conn.prepare(sql::SEARCH_TEXT).unwrap();
    let rows = stmt
        .query_map((query, top_k), |r| {
            let raw: f32 = r.get(1)?;
            Ok((r.get::<_, String>(0)?, Score { bits: raw.to_bits() }))
        })
        .unwrap();
    text_scores(rows.map(|r| r.unwrap()).collect())
        .into_iter()
        .map(|s| (s.id, f32::from_bits(s.score.bits)))
        .collect()
}

fn count_vectors(conn: &Connection) -> i64 {
    conn.query_row("SELECT COUNT(*) FROM vec_chunks", [], |r| r.get(0)).unwrap()
}

#[test]
fn test_document_crud() {
    let conn = open();
    add_document(&conn, &make_doc("doc1.txt", "hello world"));
    add_document(&conn, &make_doc("doc2.txt", "foo bar"));

    let got = get_document(&conn, "doc1.txt");
    assert!(got.is_some());
    assert_eq!(got.unwrap().content_hash, "hash-hello world");
    assert_eq!(documents_of(document_rows(&conn)).unwrap().len(), 2);

    conn.execute(sql::DELETE_DOCUMENT_PATH, ["doc1.txt"]).unwrap();
    conn.execute(sql::DELETE_DOCUMENT, ["doc1.txt"]).unwrap();
    assert!(get_document(&conn, "doc1.txt").is_none());
    assert_eq!(documents_of(document_rows(&conn)).unwrap().len(), 1);
}

#[test]
fn test_chunk_crud() {
    let conn = open();
    add_document(&conn, &make_doc("doc1.txt", "hello world"));
    add_chunk(&conn, &make_chunk("c1", "doc1.txt", "hello", 0, 5), "hello");
    add_chunk(&conn, &make_chunk("c2", "doc1.txt", "world", 6, 11), "world");

    let got = get_chunks(&conn, &["c1", "c2"]);
    assert_eq!(got.len(), 2);
    assert_eq!(got[1].byte_range, 6..11);

    delete_chunks_by_doc(&conn, "doc1.txt");
    assert!(get_chunks(&conn, &["c1"]).is_empty());
}

#[test]
fn test_shared_chunk_survives_deleting_one_doc() {
    let conn = open();
    add_document(&conn, &make_doc("doc_a.txt", "shared text"));
    add_document(&conn, &make_doc("doc_b.txt", "shared text"));
    add_chunk(&conn, &make_chunk("shared", "doc_a.txt", "shared text", 0, 11), "shared text");
    add_chunk(&conn, &make_chunk("shared", "doc_b.txt", "shared text", 0, 11), "shared text");

    let got = get_chunks(&conn, &["shared"]);
    assert_eq!(got.len(), 1);
    assert!(!got[0].text.is_empty());
    assert_eq!(got[0].doc_id, "doc_a.txt");

    delete_chunks_by_doc(&conn, "doc_a.txt");
    let got = get_chunks(&conn, &["shared"]);
    assert_eq!(got.len(), 1, "shared chunk must survive when doc_b still references it");
    assert_eq!(got[0].doc_id, "doc_b.txt");
}

#[test]
fn test_delete_chunks_cascades_vectors_and_fts() {
    let conn = open();
    add_document(&conn, &make_doc("doc1.txt", "content"));
    add_chunk(&conn, &make_chunk("c1", "doc1.txt", "hello", 0, 5), "hello");
    assert_eq!(count_vectors(&conn), 1);
    assert!(!search_text(&conn, "hello", 10).is_empty());

    delete_chunks_by_doc(&conn, "doc1.txt");
    assert!(get_chunks(&conn, &["c1"]).is_empty());
    assert_eq!(count_vectors(&conn), 0);
    assert!(search_text(&conn, "hello", 10).is_empty());
}

#[test]
fn test_model_version() {
    let conn = open();
    let get = |role: ModelRole| {
        conn.query_row(sql::GET_MODEL_VERSION, [role.as_str()], |r| {
            Ok(ModelSpec {
                role,
                repo_id: r.get(0)?,
                filename: r.get(1)?,
                revision: r.get(2)?,
                checksum: r.get(3)?,
            })
        })
        .optional()
        .unwrap()
    };
    assert!(get(ModelRole::Embedding).is_none());
    conn.execute(
        sql::SET_MODEL_VERSION,
        ("embedding", "BAAI/bge-small-zh-v1.5", "model.onnx", "main", Some("abc123")),
    )
    .unwrap();
    let got = get(ModelRole::Embedding).unwrap();
    assert_eq!(got.repo_id, "BAAI/bge-small-zh-v1.5");
    assert_eq!(got.checksum.as_deref(), Some("abc123"));
}

#[test]
fn test_text_search() {
    let conn = open();
    add_document(&conn, &make_doc("doc1.txt", "content"));
    let chunks = [
        ("c1", "分布式 共识 算法 解决 多个 节点 达成 一致 的 问题"),
        ("c2", "Raft 是 一种 易于 理解 的 共识 算法"),
        ("c3", "今天 天气 不错"),
    ];
    for (id, text) in &chunks {
        add_chunk(&conn, &make_chunk(id, "doc1.txt", text, 0, text.len()), text);
    }

    let hits = search_text(&conn, "共识 算法", 10);
    assert_eq!(hits.len(), 2);
    let ids: Vec<&str> = hits.iter().map(|(id, _)| id.as_str()).collect();
    assert!(ids.contains(&"c1"));
    assert!(ids.contains(&"c2"));
    assert!(!ids.contains(&"c3"));
    assert!(hits[0].1 >= hits[1].1, "higher is better");
}

#[test]
fn test_transaction_rollback_on_drop() {
    let conn = open();
    conn.execute_batch(sql::BEGIN).unwrap();
    let tx = Transaction::new();
    add_document(&conn, &make_doc("doc1.txt", "content"));
    assert!(tx.rolls_back());
    conn.execute_batch(sql::ROLLBACK).unwrap();
    assert!(get_document(&conn, "doc1.txt").is_none(), "doc must not persist without commit");
}

#[test]
fn test_transaction_commit() {
    let conn = open();
    conn.execute_batch(sql::BEGIN).unwrap();
    let mut tx = Transaction::new();
    add_document(&conn, &make_doc("doc1.txt", "content"));
    add_chunk(&conn, &make_chunk("c1", "doc1.txt", "hello", 0, 5), "hello");
    assert!(tx.check_commit().is_ok());
    conn.execute_batch(sql::COMMIT).unwrap();
    tx.commit_ended(true);
    assert!(!tx.rolls_back());

    assert!(get_document(&conn, "doc1.txt").is_some());
    assert_eq!(get_chunks(&conn, &["c1"]).len(), 1);
    assert_eq!(search_text(&conn, "hello", 10).len(), 1);
}

#[test]
fn test_transaction_commit_after_failure() {
    let conn = open();
    conn.execute_batch(sql::BEGIN).unwrap();
    let tx = Transaction::new();
    add_document(&conn, &make_doc("doc1.txt", "content"));
    let row = chunk_row(&make_chunk("c1", "doc1.txt", "hello", 0, 5));
    conn.execute(sql::INSERT_CHUNK, (&row.chunk_id, &row.text, row.start_byte, row.end_byte))
        .unwrap();
    let ids = ["c1".to_string(), "c2".to_string()];
    assert!(vector_rows(&ids, &[vec![0.0_f32.to_bits(); 512]]).is_err());
    assert!(tx.rolls_back());
    conn.execute_batch(sql::ROLLBACK).unwrap();

    assert!(get_document(&conn, "doc1.txt").is_none(), "partial writes must be rolled back");
    assert!(get_chunks(&conn, &["c1"]).is_empty());
}

#[test]
fn test_data_only_then_reopen_with_models() {
    let conn = Connection::open_in_memory().unwrap();
    let vector_table = |conn: &Connection| -> Option<String> {
        conn.query_row(sql::FIND_VECTOR_TABLE, [], |r| r.get(0)).optional().unwrap()
    };
    // Without a model there is no dimension, and no table for vectors.
    conn.execute_batch(sql::CREATE_TABLES).unwrap();
    assert!(!needs_vector_table(vector_table(&conn).as_deref(), 0).unwrap());
    conn.execute(sql::ADD_COLLECTION, ("notes", "/n")).unwrap();

    // With a model the table can still be made, and what is there stays.
    conn.execute_batch(sql::CREATE_TABLES).unwrap();
    assert!(needs_vector_table(vector_table(&conn).as_deref(), 512).unwrap());
    let mut stmt = conn.prepare(sql::LIST_COLLECTIONS).unwrap();
    let names: Vec<String> =
        stmt.query_map([], |r| r.get(0)).unwrap().map(|r| r.unwrap()).collect();
    assert_eq!(names, vec!["notes"]);
}

#[test]
fn a_transaction_is_committed_once() {
    let mut tx = Transaction::new();
    tx.commit_ended(false);
    assert!(tx.check_commit().is_ok());
    tx.commit_ended(true);
    assert!(matches!(
        tx.check_commit(),
        Err(DocqError::Store(StoreError::TransactionAlreadyCommitted))
    ));
}

#[test]
fn lists_of_different_lengths_are_refused() {
    let ids = ["c1".to_string(), "c2".to_string()];
    match vector_rows(&ids, &[vec![0; 4]]) {
        Err(DocqError::Store(StoreError::ArgumentMismatch { what, a, b })) => {
            assert_eq!((what.as_str(), a, b), ("chunk_ids and embeddings", 2, 1));
        }
        _ => panic!("two ids and one vector"),
    }
    match fts_rows(&ids, &[]) {
        Err(DocqError::Store(StoreError::ArgumentMismatch { what, a, b })) => {
            assert_eq!((what.as_str(), a, b), ("chunk_ids and tokenized_texts", 2, 0));
        }
        _ => panic!("two ids and no text"),
    }
}

#[test]
fn paths_are_found_for_many_documents() {
    let conn = open();
    for i in 0..5 {
        add_document(&conn, &make_doc(&format!("d{i}"), "x"));
        conn.execute(sql::INSERT_DOCUMENT_PATH, (format!("d{i}"), format!("/p/{i}"))).unwrap();
    }
    let statement = sql::select_document_paths(2);
    assert_eq!(
        statement,
        "SELECT doc_id, file_path FROM document_paths WHERE doc_id IN (?,?)"
    );
    let mut stmt = conn.prepare(&statement).unwrap();
    let rows = stmt.query_map(["d1", "d4"], |r| r.get::<_, String>(1)).unwrap();
    let mut paths: Vec<String> = rows.map(|r| r.unwrap()).collect();
    paths.sort();
    assert_eq!(paths, vec!["/p/1", "/p/4"]);
    assert_eq!(sql::placeholders(0), "");
    assert_eq!(sql::placeholders(1), "?");
    assert_eq!(sql::placeholders(3), "?,?,?");
}

#[test]
fn documents_survive_their_rows() {
    for (secs, nanos) in [
        (0, 0),
        (1_720_000_000, 123_456_789),
        (-62_167_219_200, 0),
        (253_402_300_799, 999_999_999),
        (1_483_228_799, 1_500_000_000),
    ] {
        let mut doc = make_doc("d", "content");
        doc.indexed_at = Timestamp { secs, nanos };
        let row = document_row(&doc).unwrap();
        let back = document_of(row).unwrap();
        assert_eq!(back.id, doc.id);
        assert_eq!(back.content_hash, doc.content_hash);
        assert_eq!(back.content_size, doc.content_size);
        assert_eq!(back.indexed_at, doc.indexed_at);
    }
}

#[test]
fn timestamps_are_written_in_utc() {
    let mut doc = make_doc("d", "content");
    doc.indexed_at = Timestamp { secs: 1_431_648_000, nanos: 250_000_000 };
    assert_eq!(document_row(&doc).unwrap().indexed_at, "2015-05-15T00:00:00.250+00:00");
    doc.indexed_at = Timestamp { secs: i64::MAX, nanos: 0 };
    assert!(document_row(&doc).is_none());
}

#[test]
fn offsets_of_timestamps_are_respected() {
    let row = DocumentRow {
        doc_id: "d".into(),
        content_hash: "h".into(),
        content_size: 3,
        indexed_at: "1996-12-19T16:39:57-08:00".into(),
    };
    let doc = document_of(row).unwrap();
    assert_eq!(doc.indexed_at, Timestamp { secs: 851_042_397, nanos: 0 });
}

#[test]
fn unreadable_timestamps_are_errors() {
    let row = |at: &str| DocumentRow {
        doc_id: "d".into(),
        content_hash: "h".into(),
        content_size: 3,
        indexed_at: at.into(),
    };
    match document_of(row("yesterday")) {
        Err(DocqError::Store(StoreError::InvalidTimestamp(m))) => {
            assert_eq!(m, "premature end of input")
        }
        _ => panic!("no timestamp"),
    }
    let rows = vec![row("2020-01-01T00:00:00Z"), row(""), row("2020-01-01T00:00:00Z")];
    assert!(documents_of(rows).is_err());
    let rows = vec![row("2020-01-01T00:00:00Z"), row("2021-01-01T00:00:00Z")];
    assert_eq!(documents_of(rows).unwrap()[1].indexed_at.secs, 1_609_459_200);
}

#[test]
fn chunks_without_a_document_have_an_empty_one() {
    let chunk = chunk_of(ChunkRow {
        chunk_id: "c".into(),
        doc_id: None,
        text: "t".into(),
        start_byte: 2,
        end_byte: 3,
    });
    assert_eq!(chunk.doc_id, "");
    assert_eq!(chunk.byte_range, 2..3);
}

#[test]
fn vectors_are_little_endian() {
    let bytes = embedding_to_bytes(&[1.0_f32.to_bits(), (-2.5_f32).to_bits()]);
    let mut expected = 1.0_f32.to_le_bytes().to_vec();
    expected.extend_from_slice(&(-2.5_f32).to_le_bytes());
    assert_eq!(bytes, expected);
    assert!(embedding_to_bytes(&[]).is_empty());
}

#[test]
fn text_scores_are_turned_round() {
    let rows = vec![("a".to_string(), Score { bits: (-1.5_f32).to_bits() })];
    let scores = text_scores(rows);
    assert_eq!(f32::from_bits(scores[0].score.bits), 1.5);
}

#[test]
fn vector_tables_of_another_dimension_are_refused() {
    let statement = sql::create_vector_table(512);
    assert!(statement.contains("embedding FLOAT[512] distance_metric=cosine"));
    assert!(!needs_vector_table(None, 0).unwrap());
    assert!(needs_vector_table(None, 512).unwrap());
    assert!(!needs_vector_table(Some(&statement), 512).unwrap());
    assert!(!needs_vector_table(Some(&statement), 0).unwrap());
    for dimension in [12, 51, 1024, 5120] {
        match needs_vector_table(Some(&statement), dimension) {
            Err(DocqError::Store(StoreError::SchemaMismatch { expected })) => {
                assert_eq!(expected, format!("FLOAT[{dimension}]"));
            }
            _ => panic!("the table is for 512 numbers"),
        }
    }
}

#[test]
fn poisoned_locks_have_their_own_error() {
    assert!(matches!(poisoned(), StoreError::MutexPoisoned));
}

#[test]
fn a_shared_chunk_is_found_once() {
    let conn = open();
    add_document(&conn, &make_doc("doc_a.txt", "shared text"));
    add_document(&conn, &make_doc("doc_b.txt", "shared text"));
    add_chunk(&conn, &make_chunk("shared", "doc_a.txt", "shared text", 0, 11), "shared text");
    add_chunk(&conn, &make_chunk("shared", "doc_b.txt", "shared text", 0, 11), "shared text");
    assert_eq!(search_text(&conn, "shared", 10).len(), 1);
    delete_chunks_by_doc(&conn, "doc_a.txt");
    assert_eq!(search_text(&conn, "shared", 10).len(), 1);
    delete_chunks_by_doc(&conn, "doc_b.txt");
    assert_eq!(search_text(&conn, "shared", 10).len(), 0);
}
