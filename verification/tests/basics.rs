use semquery::error::{
    DocqError, EmbedError, LlmError, ModelError, ParseError, RetrieveError, StoreError, SynthError,
};
use semquery::fusion::{collect_candidates, order_fused};
use semquery::hash::{sha256_hex, to_hex};
use semquery::indexer::{chunking_changed, index_meta, model_changed};
use semquery::models::{ModelRole, ModelSpec, ScoredId, SearchStage, SearchStats};
use semquery::ranking::{is_better, rank};
use semquery::retriever::{rerank_order, top_ids};
use semquery::score::Score;
use semquery::synthesizer::{marker_number, valid_markers};
use semquery::text;
use semquery::verbose::{logs_to_terminal, set_log_terminal_output, LogOutput, Verbose};

fn score(x: f32) -> Score {
    Score { bits: x.to_bits() }
}

fn scored(id: &str, x: f32) -> ScoredId {
    ScoredId { id: id.into(), score: score(x) }
}

#[test]
fn scores_are_ordered_as_numbers() {
    let ordered = [f32::NEG_INFINITY, -2.0, -0.5, -0.0, 0.0, 1e-30, 0.5, 2.0, f32::INFINITY];
    for (i, a) in ordered.iter().enumerate() {
        for (j, b) in ordered.iter().enumerate() {
            assert_eq!(score(*a).is_below(score(*b)), i < j, "{a} {b}");
        }
    }
    assert_eq!(score(1.5).negated(), score(-1.5));
    assert_eq!(score(-1.5).negated().negated(), score(-1.5));
    assert_eq!(Score::zero(), score(0.0));
}

#[test]
fn rankings_are_stable_and_put_missing_scores_last() {
    let keys = vec![None, Some(score(0.1)), Some(score(0.9)), None, Some(score(0.1))];
    assert_eq!(rank(&keys), vec![2, 1, 4, 0, 3]);
    assert!(is_better(Some(score(-1.0)), None));
    assert!(!is_better(None, None));
}

#[test]
fn reranked_candidates_come_first() {
    let ids: Vec<String> = ["a", "b", "c"].iter().map(|s| s.to_string()).collect();
    let scores = vec![scored("c", -1.0)];
    assert_eq!(rerank_order(&ids, &scores), vec!["c", "a", "b"]);
}

#[test]
fn candidates_know_their_ranks() {
    let bm25 = vec![scored("x", 3.0), scored("y", 2.0)];
    let vector = vec![scored("y", 0.9), scored("z", 0.8)];
    let all = collect_candidates(&bm25, &vector);
    let ranks: Vec<(String, Option<usize>, Option<usize>)> =
        all.into_iter().map(|c| (c.id, c.bm25_rank, c.vector_rank)).collect();
    assert_eq!(ranks.len(), 3);
    assert!(ranks.contains(&("x".into(), Some(1), None)));
    assert!(ranks.contains(&("y".into(), Some(2), Some(1))));
    assert!(ranks.contains(&("z".into(), None, Some(2))));
}

#[test]
fn fused_candidates_are_sorted_by_score() {
    let ids: Vec<String> = ["a", "b", "c"].iter().map(|s| s.to_string()).collect();
    let fused = order_fused(&ids, &vec![score(0.1), score(0.3), score(0.2)]);
    assert_eq!(top_ids(&fused, 2), vec!["b", "c"]);
    assert_eq!(top_ids(&fused, 9).len(), 3);
}

#[test]
fn hashes_are_hexadecimal() {
    assert_eq!(
        sha256_hex("abc"),
        "ba7816bf8f01cfea414140de5dae2223b00361a396177a9cb410ff61f20015ad"
    );
    assert_eq!(to_hex(&vec![0x00, 0x0f, 0xa5]), "000fa5");
}

#[test]
fn markers_are_numbers_in_brackets() {
    assert_eq!(valid_markers(3), vec!["[1]", "[2]", "[3]"]);
    assert_eq!(marker_number("[12]"), Some(12));
    assert_eq!(marker_number("[x]"), None);
    assert_eq!(marker_number("[]"), None);
    assert_eq!(marker_number("[99999999999999999999999]"), None);
}

#[test]
fn marks_tell_chunkings_apart() {
    let stored = Some(index_meta(1024, 102));
    assert!(!chunking_changed(&stored, 1024, 102));
    assert!(chunking_changed(&stored, 1024, 10));
    assert!(chunking_changed(&stored, 102, 1024));
    assert!(chunking_changed(&None, 1024, 102));
}

#[test]
fn other_models_are_noticed() {
    let spec = |revision: &str| ModelSpec {
        role: ModelRole::Embedding,
        repo_id: "r".into(),
        filename: "f".into(),
        revision: revision.into(),
        checksum: None,
    };
    assert!(!model_changed(&Some(spec("main")), &spec("main")));
    assert!(model_changed(&Some(spec("v1")), &spec("main")));
    assert!(model_changed(&None, &spec("main")));
}

#[test]
fn text_helpers() {
    for c in ['\t', '\n', ' ', '\u{85}', '\u{a0}', '\u{2003}', '\u{3000}', 'a', '0', '\u{200b}', '中'] {
        assert_eq!(text::is_whitespace(c), c.is_whitespace(), "{c:?}");
    }
    for s in ["", " ", " a ", "\u{3000}中 文\n", "x"] {
        assert_eq!(text::trim(s), s.trim());
        assert_eq!(text::is_blank(s), s.trim().is_empty());
        assert_eq!(text::replace(s, 'a', "--"), s.replace('a', "--"));
    }
    assert!(text::contains("FLOAT[512]", "[51"));
    assert!(text::contains("abc", ""));
    assert!(!text::contains("abc", "abcd"));
    assert!(text::contains("aaab", "aab"));
    assert_eq!(text::to_decimal(0), "0");
    assert_eq!(text::to_decimal(u128::MAX), u128::MAX.to_string());
    assert!(text::same("é", "é"));
    assert!(!text::same("é", "e"));
}

#[test]
fn progress_is_shown_on_the_terminal_once() {
    let mut output = LogOutput::default();
    assert!(!logs_to_terminal(&output));
    let message = Verbose(true).log("hello", &output).unwrap();
    assert_eq!(message.record, "hello");
    assert_eq!(message.terminal.as_deref(), Some("[semquery] hello"));
    set_log_terminal_output(&mut output, true);
    set_log_terminal_output(&mut output, false);
    assert!(logs_to_terminal(&output));
    assert!(Verbose(true).log("hello", &output).unwrap().terminal.is_none());
    assert!(Verbose(false).log("hello", &output).is_none());
}

#[test]
fn steps_are_timed() {
    let output = LogOutput::default();
    let (step, begun) = Verbose(true).start("search", 5_000_000, &output);
    assert_eq!(begun.unwrap().record, "search...");
    assert_eq!(step.finish(47_999_999, &output).unwrap().record, "search: 42 ms");
    let (step, begun) = Verbose::default().start("search", 0, &output);
    assert!(begun.is_none());
    assert!(step.finish(1, &output).is_none());
}

#[test]
fn stages_have_names() {
    assert_eq!(SearchStage::EmbedQuery.as_str(), "embed_query");
    assert_eq!(SearchStage::ResolvePaths.as_str(), "resolve_paths");
    assert_eq!(SearchStats::default().total_ms, 0);
}

#[test]
fn failures_in_words() {
    let cases: Vec<(DocqError, &str)> = vec![
        (
            ParseError::Io { path: "a".into(), source: "b".into() }.into(),
            "parse error: read a: b",
        ),
        (StoreError::MutexPoisoned.into(), "store error: mutex poisoned"),
        (EmbedError::EmptyResult.into(), "embed error: empty embedding result"),
        (RetrieveError::TaskJoin("x".into()).into(), "retrieve error: task join: x"),
        (SynthError::Other("x".into()).into(), "synth error: x"),
        (LlmError::ModelLoad("x".into()).into(), "llm error: load model: x"),
        (ModelError::HubApiFailed("x".into()).into(), "model error: hub api: x"),
    ];
    for (e, expected) in cases {
        assert_eq!(e.message(), expected);
    }
    let mismatch = StoreError::ArgumentMismatch { what: "a and b".into(), a: 2, b: 10 };
    assert_eq!(mismatch.message(), "a and b length mismatch: 2 vs 10");
    let missing = ParseError::ZipEntryMissing {
        path: "f.docx".into(),
        entry: "word/document.xml".into(),
        message: "gone".into(),
    };
    assert_eq!(missing.message(), "zip entry `word/document.xml` missing in f.docx: gone");
}
