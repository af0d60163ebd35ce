use semquery::citation::parse_citations;
use semquery::models::{Chunk, ScoreExplain, SearchHit};
use semquery::prompt::build_ask_prompt;
use semquery::retriever::sanitize_fts5_query;
use semquery::score::Score;
use semquery::tokenizer::{jieba_tokenize, JiebaSegmenter};
use semquery::traits::WordSegmenter;

#[test]
fn test_jieba_tokenize_basic() {
    let result = jieba_tokenize("分布式共识算法");
    let tokens: Vec<&str> = result.split_whitespace().collect();
    assert!(!tokens.is_empty());
    assert!(tokens.contains(&"共识"));
    assert!(tokens.contains(&"算法"));
}

#[test]
fn test_jieba_tokenize_english() {
    let result = jieba_tokenize("hello world");
    let tokens: Vec<&str> = result.split_whitespace().collect();
    assert!(tokens.contains(&"hello"));
    assert!(tokens.contains(&"world"));
}

#[test]
fn test_jieba_tokenize_mixed() {
    let result = jieba_tokenize("Raft是一种共识算法");
    assert!(result.contains("共识"));
    assert!(result.contains("算法"));
}

#[test]
fn test_jieba_segmenter_via_trait() {
    let seg: &dyn WordSegmenter = &JiebaSegmenter;
    let result = seg.segment("共识算法");
    assert!(result.contains("共识"));
}

#[test]
fn segmenting_keeps_the_characters() {
    let text = "Raft是一种易于理解的共识算法";
    let words = jieba_tokenize(text);
    assert!(words.contains(' '));
    assert_eq!(words.replace(' ', ""), text);
}

#[test]
fn test_sanitize_fts5_query_quotes_each_token() {
    assert_eq!(sanitize_fts5_query("Multi-Paxos"), "\"Multi-Paxos\"");
    assert_eq!(sanitize_fts5_query("hello world"), "\"hello\" \"world\"");
    assert_eq!(
        sanitize_fts5_query("a \"quoted\" term"),
        "\"a\" \"\"\"quoted\"\"\" \"term\""
    );
}

#[test]
fn sanitizing_blank_queries_gives_nothing() {
    assert_eq!(sanitize_fts5_query(""), "");
    assert_eq!(sanitize_fts5_query(" \t\n"), "");
    assert_eq!(sanitize_fts5_query("  a   b "), "\"a\" \"b\"");
}

#[test]
fn test_parse_citations_basic() {
    let answer = "The answer is [1] because [2] says so.";
    let valid = vec!["[1]".to_string(), "[2]".to_string()];
    let result = parse_citations(answer, &valid);
    assert_eq!(result, vec!["[1]", "[2]"]);
}

#[test]
fn test_parse_citations_filters_invalid() {
    let answer = "See [1] and [5] for details.";
    let valid = vec!["[1]".to_string(), "[2]".to_string()];
    let result = parse_citations(answer, &valid);
    assert_eq!(result, vec!["[1]"]);
}

#[test]
fn test_parse_citations_dedup() {
    let answer = "As mentioned in [1], see [1] again.";
    let valid = vec!["[1]".to_string()];
    let result = parse_citations(answer, &valid);
    assert_eq!(result, vec!["[1]"]);
}

#[test]
fn test_parse_citations_no_match() {
    let answer = "No citations here.";
    let valid = vec!["[1]".to_string()];
    let result = parse_citations(answer, &valid);
    assert!(result.is_empty());
}

#[test]
fn citations_come_in_the_order_of_the_answer() {
    let valid = vec!["[1]".to_string(), "[2]".to_string(), "[12]".to_string()];
    let result = parse_citations("[12][2] and [a] [] [[1]] [2]", &valid);
    assert_eq!(result, vec!["[12]", "[2]", "[1]"]);
}

fn make_hit(id: &str, doc_id: &str, text: &str, start: usize, end: usize) -> SearchHit {
    SearchHit {
        chunk: Chunk {
            id: id.into(),
            doc_id: doc_id.into(),
            text: text.into(),
            byte_range: start..end,
        },
        file_path: doc_id.into(),
        score: Score { bits: 0.1_f32.to_bits() },
        explain: ScoreExplain::default(),
    }
}

#[test]
fn test_build_ask_prompt_format() {
    let hits = vec![
        make_hit("c1", "docs/a.txt", "hello world", 0, 11),
        make_hit("c2", "docs/b.txt", "foo bar", 20, 27),
    ];
    let prompt = build_ask_prompt("What is a.txt about?", &hits);

    assert!(prompt.starts_with("Context information is below."));
    assert!(prompt.contains("[1] docs/a.txt (bytes 0-11):\nhello world\n"));
    assert!(prompt.contains("[2] docs/b.txt (bytes 20-27):\nfoo bar\n"));
    assert!(prompt.contains("Query: What is a.txt about?"));
    assert!(prompt.ends_with("Answer:"));
}

#[test]
fn test_build_ask_prompt_empty_hits() {
    let prompt = build_ask_prompt("test", &[]);
    assert!(prompt.contains("Query: test"));
    assert!(prompt.ends_with("Answer:"));
}

#[test]
fn segmenting_nothing_gives_nothing() {
    assert_eq!(jieba_tokenize(""), "");
    assert_eq!(jieba_tokenize("共识算法"), JiebaSegmenter.segment("共识算法"));
}

#[test]
fn queries_are_sanitized_token_by_token() {
    let (a, b) = ("say \"hi\"", "a-b  (c)");
    let both = sanitize_fts5_query(&format!("{a} {b}"));
    assert_eq!(both, format!("{} {}", sanitize_fts5_query(a), sanitize_fts5_query(b)));
    let back: Vec<String> = both
        .split(' ')
        .map(|t| t[1..t.len() - 1].replace("\"\"", "\""))
        .collect();
    assert_eq!(back, vec!["say", "\"hi\"", "a-b", "(c)"]);
}

#[test]
fn valid_markers_are_a_set() {
    let marks = |list: &[&str]| -> Vec<String> { list.iter().map(|s| s.to_string()).collect() };
    let answer = "x [3] y [1] [x] [12] [[2]] [3]";
    let expected = marks(&["[3]", "[1]", "[2]"]);
    assert_eq!(parse_citations(answer, &marks(&["[1]", "[2]", "[3]"])), expected);
    assert_eq!(parse_citations(answer, &marks(&["[3]", "[2]", "[1]", "[2]"])), expected);
    // Only numbers in brackets are markers, whatever is called valid.
    assert!(parse_citations(answer, &marks(&["[x]", "x", "[4]"])).is_empty());
}
