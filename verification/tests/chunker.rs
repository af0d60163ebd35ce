use semquery::chunker::SentenceSplitter;
use semquery::models::ChunkCandidate;
use semquery::traits::Chunker;
use tokenizers::models::unigram::Unigram;
use tokenizers::models::wordlevel::WordLevelBuilder;
use tokenizers::models::wordpiece::WordPieceBuilder;
use tokenizers::normalizers::replace::ReplacePattern;
use tokenizers::normalizers::{
    BertNormalizer, Lowercase, Precompiled, Prepend, Replace, Strip, StripAccents, NFC, NFKD,
};
use tokenizers::pre_tokenizers::bert::BertPreTokenizer;
use tokenizers::pre_tokenizers::byte_level::ByteLevel;
use tokenizers::pre_tokenizers::fixed_length::FixedLength;
use tokenizers::pre_tokenizers::metaspace::Metaspace;
use tokenizers::pre_tokenizers::split::{Split, SplitPattern};
use tokenizers::pre_tokenizers::whitespace::Whitespace;
use tokenizers::processors::template::TemplateProcessing;
use tokenizers::{normalizers, pre_tokenizers, processors};
use tokenizers::{
    AddedToken, NormalizerWrapper, PaddingParams, PaddingStrategy, PostProcessorWrapper,
    SplitDelimiterBehavior, Tokenizer, TruncationParams,
};

fn test_tokenizer() -> Tokenizer {
    let mut vocab: Vec<(String, u32)> = vec![("[UNK]".to_string(), 0), ("[PAD]".to_string(), 1)];
    let letters = "abcdefghijklmnopqrstuvwxyzABCDEFGHIJKLMNOPQRSTUVWXYZ0123456789";
    for (i, c) in letters.chars().enumerate() {
        vocab.push((c.to_string(), (i + 2) as u32));
    }
    let model = WordLevelBuilder::new()
        .vocab(vocab.into_iter().collect())
        .unk_token("[UNK]".to_string())
        .build()
        .unwrap();
    let mut tok = Tokenizer::new(model);
    tok.with_pre_tokenizer(Some(Whitespace));
    tok
}

fn split(text: &str, chunk_size: usize, chunk_overlap: usize) -> Vec<ChunkCandidate> {
    SentenceSplitter::new(test_tokenizer(), chunk_size, chunk_overlap).chunk(text)
}

fn ranges(chunks: &[ChunkCandidate]) -> Vec<(usize, usize)> {
    chunks.iter().map(|c| (c.byte_range.start, c.byte_range.end)).collect()
}

#[test]
fn test_short_text_single_chunk() {
    let tok = test_tokenizer();
    let splitter = SentenceSplitter::new(tok, 100, 10);
    let text = "Hello world. This is a test.";
    let chunks = splitter.chunk(text);
    assert_eq!(chunks.len(), 1);
    assert_eq!(chunks[0].byte_range.start, 0);
    assert_eq!(chunks[0].byte_range.end, text.len());
    assert_eq!(chunks[0].text, text);
}

#[test]
fn test_multiple_sentences_multiple_chunks() {
    let tok = test_tokenizer();
    let splitter = SentenceSplitter::new(tok, 3, 1);
    let text = "Hello world. Foo bar. Baz qux.";
    let chunks = splitter.chunk(text);
    assert!(chunks.len() >= 2, "expected at least 2 chunks, got {}", chunks.len());
    for ch in &chunks {
        assert!(ch.byte_range.end > ch.byte_range.start);
        assert!(!ch.text.is_empty());
    }
}

#[test]
fn test_byte_ranges_cover_text() {
    let tok = test_tokenizer();
    let splitter = SentenceSplitter::new(tok, 5, 2);
    let text = "First sentence here. Second one too. Third is short.";
    let chunks = splitter.chunk(text);
    assert!(!chunks.is_empty());
    assert_eq!(chunks[0].byte_range.start, 0);
    for w in chunks.windows(2) {
        assert!(
            w[0].byte_range.end >= w[1].byte_range.start,
            "chunk end {} < next start {}",
            w[0].byte_range.end,
            w[1].byte_range.start
        );
    }
    let last = chunks.last().unwrap();
    assert!(last.byte_range.end <= text.len());
}

#[test]
fn test_chinese_punctuation_split() {
    let tok = test_tokenizer();
    let splitter = SentenceSplitter::new(tok, 100, 10);
    let text = "这是一个句子。这是另一个句子！还有第三个？";
    let chunks = splitter.chunk(text);
    assert_eq!(chunks.len(), 1, "with chunk_size=100 all 3 sentences fit in one chunk");
    assert_eq!(chunks[0].text, text);
    assert_eq!(chunks[0].byte_range, 0..text.len());
}

#[test]
fn test_empty_text() {
    let tok = test_tokenizer();
    let splitter = SentenceSplitter::new(tok, 100, 10);
    let chunks = splitter.chunk("");
    assert!(chunks.is_empty());
}

#[test]
fn test_paragraph_split() {
    let tok = test_tokenizer();
    let splitter = SentenceSplitter::new(tok, 100, 10);
    let text = "Paragraph one here.\n\n\nParagraph two here.";
    let chunks = splitter.chunk(text);
    assert_eq!(chunks.len(), 1);
    assert!(chunks[0].text.contains("Paragraph one"));
    assert!(chunks[0].text.contains("Paragraph two"));
}

#[test]
fn test_overlap_between_chunks() {
    let tok = test_tokenizer();
    let splitter = SentenceSplitter::new(tok, 2, 1);
    let text = "alpha beta gamma delta epsilon zeta";
    let chunks = splitter.chunk(text);
    assert!(chunks.len() >= 2, "expected at least 2 chunks, got {}", chunks.len());
    if chunks.len() >= 2 {
        assert!(
            chunks[0].byte_range.end > chunks[1].byte_range.start,
            "expected overlap: first.end={} > second.start={}",
            chunks[0].byte_range.end,
            chunks[1].byte_range.start
        );
    }
}

#[test]
fn test_byte_ranges_match_original_text() {
    let tok = test_tokenizer();
    let splitter = SentenceSplitter::new(tok, 5, 1);
    let text = "First sentence here. Second one too. Third is short.";
    let chunks = splitter.chunk(text);
    for ch in &chunks {
        let extracted = &text[ch.byte_range.start..ch.byte_range.end];
        assert_eq!(ch.text, *extracted, "byte_range text mismatch: chunk text != text[range]");
    }
}

#[test]
fn test_byte_ranges_with_multibyte_chars() {
    let tok = test_tokenizer();
    let splitter = SentenceSplitter::new(tok, 100, 10);
    let text = "你好世界。这是测试！";
    let chunks = splitter.chunk(text);
    assert_eq!(chunks.len(), 1);
    let extracted = &text[chunks[0].byte_range.start..chunks[0].byte_range.end];
    assert_eq!(chunks[0].text, extracted);
}

#[test]
fn test_byte_ranges_with_paragraphs() {
    let tok = test_tokenizer();
    let splitter = SentenceSplitter::new(tok, 100, 10);
    let text = "First paragraph.\n\n\nSecond paragraph.";
    let chunks = splitter.chunk(text);
    assert_eq!(chunks.len(), 1);
    let extracted = &text[chunks[0].byte_range.start..chunks[0].byte_range.end];
    assert_eq!(chunks[0].text, extracted);
}

#[test]
fn words_of_a_long_sentence_are_packed_with_overlap() {
    let text = "alpha beta gamma delta";
    let chunks = split(text, 2, 1);
    let texts: Vec<&str> = chunks.iter().map(|c| c.text.as_str()).collect();
    assert_eq!(texts, vec!["alpha beta", "beta gamma", "gamma delta"]);
    assert_eq!(ranges(&chunks), vec![(0, 10), (6, 16), (11, 22)]);
}

#[test]
fn no_overlap_gives_disjoint_chunks() {
    let chunks = split("alpha beta gamma delta", 2, 0);
    assert_eq!(ranges(&chunks), vec![(0, 10), (11, 22)]);
}

#[test]
fn blank_text_has_no_chunks() {
    assert!(split(" \n\n\t ", 10, 2).is_empty());
}

#[test]
fn chunks_move_forward_through_the_text() {
    let text = "One two three. Four five. Six seven eight nine ten. Eleven!";
    for size in 1..8 {
        for overlap in 0..size {
            let chunks = split(text, size, overlap);
            for w in chunks.windows(2) {
                assert!(w[0].byte_range.start <= w[1].byte_range.start);
                assert!(w[0].byte_range.end < w[1].byte_range.end);
            }
        }
    }
}

#[test]
fn every_word_is_in_some_chunk() {
    let text = "One two three. Four five.\n\n\nSix seven eight nine ten. 你好 世界！";
    for size in 1..8 {
        let chunks = split(text, size, size / 2);
        for (i, c) in text.char_indices() {
            if !c.is_whitespace() {
                assert!(chunks.iter().any(|ch| ch.byte_range.contains(&i)), "{i} is not covered");
            }
        }
    }
}

fn tokens(text: &str) -> usize {
    test_tokenizer().encode(text, false).unwrap().get_ids().len()
}

#[test]
fn the_overlap_makes_room_for_the_next_sentence() {
    let chunks = split("a. b c.", 3, 2);
    let texts: Vec<&str> = chunks.iter().map(|c| c.text.as_str()).collect();
    assert_eq!(texts, vec!["a.", " b c."]);
    let chunks = split("a. b c. d.", 5, 3);
    let texts: Vec<&str> = chunks.iter().map(|c| c.text.as_str()).collect();
    assert_eq!(texts, vec!["a. b c.", " b c. d."]);
}

#[test]
fn no_chunk_is_larger_than_its_size() {
    let text = "a b c. d e. f g h i j. k! l m n o p q r s. t? u v.\n\n\nw x y z.";
    for size in 1..12 {
        for overlap in 0..size {
            for chunk in split(text, size, overlap) {
                assert!(tokens(&chunk.text) <= size, "{size} {overlap} {:?}", chunk.text);
            }
        }
    }
}

/// The words of a text that is counted by its characters do not fit together.
const FOUR_WORDS: &str = "one two three four";

fn chunk_count(tokenizer: Tokenizer) -> usize {
    SentenceSplitter::new(tokenizer, 5, 0).chunk(FOUR_WORDS).len()
}

fn truncating(max_length: usize, stride: usize) -> Tokenizer {
    let mut tok = test_tokenizer();
    let params = TruncationParams { max_length, stride, ..TruncationParams::default() };
    tok.with_truncation(Some(params)).unwrap();
    tok
}

#[test]
fn tokenizers_that_truncate_are_used() {
    assert_eq!(chunk_count(test_tokenizer()), 1);
    assert_eq!(chunk_count(truncating(2, 1)), 1);
    assert_eq!(chunk_count(truncating(0, 0)), 1);
}

#[test]
fn characters_are_counted_where_a_truncation_stands_still() {
    assert_eq!(chunk_count(truncating(2, 2)), 4);
}

#[test]
fn characters_are_counted_where_a_text_is_cut_into_nothing() {
    let mut tok = test_tokenizer();
    tok.with_pre_tokenizer(Some(FixedLength::new(0)));
    assert_eq!(chunk_count(tok), 4);
    let mut tok = test_tokenizer();
    let steps = vec![Whitespace.into(), FixedLength::new(0).into()];
    tok.with_pre_tokenizer(Some(pre_tokenizers::sequence::Sequence::new(steps)));
    assert_eq!(chunk_count(tok), 4);
    let mut tok = test_tokenizer();
    tok.with_pre_tokenizer(Some(FixedLength::new(6)));
    assert_eq!(chunk_count(tok), 1);
}

#[test]
fn characters_are_counted_where_a_template_cannot_be_filled_in() {
    let template =
        |s: &str| TemplateProcessing::builder().try_single(s).unwrap().build().unwrap();
    let with = |steps: Vec<PostProcessorWrapper>| {
        let mut tok = test_tokenizer();
        tok.with_post_processor(Some(processors::sequence::Sequence::new(steps)));
        tok
    };
    let mut tok = test_tokenizer();
    tok.with_post_processor(Some(template("$A")));
    assert_eq!(chunk_count(tok), 1);
    let mut tok = test_tokenizer();
    tok.with_post_processor(Some(template("$B")));
    assert_eq!(chunk_count(tok), 4);
    assert_eq!(chunk_count(with(vec![template("$A").into()])), 1);
    assert_eq!(chunk_count(with(vec![template("$A").into(), template("$A").into()])), 1);
    assert_eq!(chunk_count(with(vec![template("$A $A $A").into(), template("$A").into()])), 4);
}

#[test]
fn names_of_special_tokens_are_no_texts() {
    let template = TemplateProcessing::builder()
        .try_single(vec!["B", "$A", "Sequence { id", "a\"B\"A", "A\\"])
        .unwrap()
        .special_tokens(vec![("B", 0), ("Sequence { id", 0), ("a\"B\"A", 0), ("A\\", 0)])
        .build()
        .unwrap();
    let mut tok = test_tokenizer();
    tok.with_post_processor(Some(template));
    assert_eq!(chunk_count(tok), 1);
}

#[test]
fn tokenizers_of_bert_are_used() {
    let words = ["[UNK]", "[CLS]", "[SEP]", "one", "two", "three", "four"];
    let vocab: [(String, u32); 7] = std::array::from_fn(|i| (words[i].to_string(), i as u32));
    let model = WordPieceBuilder::new().vocab(vocab).build().unwrap();
    let mut tok = Tokenizer::new(model);
    tok.with_normalizer(Some(BertNormalizer::default()));
    tok.with_pre_tokenizer(Some(BertPreTokenizer));
    let template = TemplateProcessing::builder()
        .try_single("[CLS] $A [SEP]")
        .unwrap()
        .special_tokens(vec![("[CLS]", 1), ("[SEP]", 2)])
        .build()
        .unwrap();
    tok.with_post_processor(Some(template));
    tok.add_special_tokens(&[AddedToken::from("[CLS]", true), AddedToken::from("[SEP]", true)]);
    tok.with_padding(Some(PaddingParams::default()));
    assert_eq!(chunk_count(tok), 1);
}

#[test]
fn tokenizers_with_scored_pieces_are_used() {
    let pieces = ["<unk>", "\u{2581}one", "\u{2581}two", "\u{2581}three", "\u{2581}four"];
    let scored: Vec<(String, f64)> = pieces.iter().map(|p| (p.to_string(), -1.0)).collect();
    let mut tok = Tokenizer::new(Unigram::from(scored, Some(0), false).unwrap());
    tok.with_pre_tokenizer(Some(Metaspace::default()));
    assert_eq!(chunk_count(tok), 1);
}

fn rewriting(step: impl Into<NormalizerWrapper>) -> usize {
    let mut tok = test_tokenizer();
    tok.with_normalizer(Some(step));
    chunk_count(tok)
}

#[test]
fn tokenizers_that_rewrite_are_used() {
    assert_eq!(rewriting(Lowercase), 1);
    assert_eq!(rewriting(StripAccents), 1);
    assert_eq!(rewriting(Strip::new(true, true)), 1);
    assert_eq!(rewriting(Prepend::new("x".into())), 1);
    assert_eq!(rewriting(Replace::new("o", "").unwrap()), 1);
    assert_eq!(rewriting(Replace::new("\"", "\"\")").unwrap()), 1);
    let spaces = ReplacePattern::Regex(" {2,}".to_string());
    assert_eq!(rewriting(Replace::new(spaces, " ").unwrap()), 1);
    let steps = vec![NFC.into(), NFKD.into(), Lowercase.into()];
    assert_eq!(rewriting(normalizers::Sequence::new(steps)), 1);
}

#[test]
fn characters_are_counted_where_a_text_cannot_be_rewritten() {
    let regex = |r: &str| Replace::new(ReplacePattern::Regex(r.to_string()), "x").unwrap();
    assert_eq!(rewriting(regex("(a*)*b")), 4);
    assert_eq!(rewriting(Replace::new("", "x").unwrap()), 4);
    let start = ReplacePattern::Regex("^".to_string());
    assert_eq!(rewriting(Replace::new(start, "pattern: String(").unwrap()), 4);
    assert_eq!(rewriting(Prepend::new(String::new())), 4);
    let inner = normalizers::Sequence::new(vec![regex("^").into()]);
    let steps = vec![inner.into(), Lowercase.into()];
    assert_eq!(rewriting(normalizers::Sequence::new(steps)), 4);
}

#[test]
fn characters_are_counted_where_a_text_is_cut_by_a_regex() {
    let split = |pattern: SplitPattern| {
        let mut tok = test_tokenizer();
        let step = Split::new(pattern, SplitDelimiterBehavior::Removed, false).unwrap();
        tok.with_pre_tokenizer(Some(step));
        tok
    };
    assert_eq!(chunk_count(split(SplitPattern::Regex("(a*)*b".into()))), 4);
    assert_eq!(chunk_count(split(SplitPattern::String(" ".into()))), 4);
    let mut tok = test_tokenizer();
    tok.with_pre_tokenizer(Some(ByteLevel::default()));
    assert_eq!(chunk_count(tok), 4);
    let mut tok = test_tokenizer();
    tok.with_pre_tokenizer(Some(ByteLevel::default().use_regex(false)));
    assert_eq!(chunk_count(tok), 1);
}

#[test]
fn characters_are_counted_where_added_tokens_cannot_be_found() {
    let adding = |tokens: &[AddedToken]| {
        let mut tok = test_tokenizer();
        tok.add_tokens(tokens);
        chunk_count(tok)
    };
    let token = |content: &str| AddedToken::from(content, false).normalized(false);
    assert_eq!(adding(&[token("one")]), 1);
    assert_eq!(adding(&[token("one").lstrip(true), token("two").lstrip(true)]), 1);
    assert_eq!(adding(&[token("one").rstrip(true)]), 1);
    assert_eq!(adding(&[token("one").rstrip(true), token("two").lstrip(true)]), 4);
    assert_eq!(adding(&[token("one").normalized(true)]), 1);

    let mut tok = test_tokenizer();
    tok.with_normalizer(Some(StripAccents));
    tok.add_tokens(&[token("\u{301}").normalized(true), token("\u{301}")]);
    assert_eq!(chunk_count(tok.clone()), 4);
    tok.with_normalizer(None::<Lowercase>);
    assert_eq!(chunk_count(tok), 4);
}

/// A map from `A` to the text at `start`, in a trie of `count` units.
fn map_bytes(count: u32, start: u32, texts: &[u8]) -> Vec<u8> {
    let mut units = vec![0; count as usize];
    units[1] = 1 << 31 | start;
    if let Some(unit) = units.get_mut(65) {
        *unit = 65 | 1 << 8 | 64 << 10;
    }
    let mut bytes = (count * 4).to_le_bytes().to_vec();
    units.iter().for_each(|u: &u32| bytes.extend(u.to_le_bytes()));
    bytes.extend(texts);
    bytes
}

#[test]
fn tokenizers_with_sound_maps_are_used() {
    let mapping = |bytes: &[u8]| Precompiled::from(bytes).unwrap();
    let texts = "x\0\u{e9}\0".as_bytes();
    assert_eq!(mapping(&map_bytes(256, 0, texts)).transform("A"), Some("x"));
    assert_eq!(rewriting(mapping(&map_bytes(256, 0, texts))), 1);
    assert_eq!(rewriting(mapping(&map_bytes(256, 2, texts))), 1);
    assert_eq!(rewriting(mapping(&map_bytes(256, 5, texts))), 1);
    let steps = vec![mapping(&map_bytes(512, 0, texts)).into(), Lowercase.into()];
    assert_eq!(rewriting(normalizers::Sequence::new(steps)), 1);
    // What is looked up may be at the start, and may be replaced by nothing.
    for start in [0, 2, 5] {
        let steps = vec![mapping(&map_bytes(256, start, texts)).into(), Lowercase.into()];
        let mut tok = test_tokenizer();
        tok.with_normalizer(Some(normalizers::Sequence::new(steps)));
        let chunks = SentenceSplitter::new(tok, 5, 0).chunk("A A\u{301} one fourA A");
        assert_eq!(chunks.len(), 1);
    }
}

#[test]
fn characters_are_counted_where_a_map_is_left() {
    let mapping = |bytes: &[u8]| Precompiled::from(bytes).unwrap();
    let texts = "x\0\u{e9}\0".as_bytes();
    // A text that starts inside of a character, and one behind the end.
    assert_eq!(rewriting(mapping(&map_bytes(256, 3, texts))), 4);
    assert_eq!(rewriting(mapping(&map_bytes(256, 6, texts))), 4);
    // Too few units, and none at all.
    assert_eq!(rewriting(mapping(&map_bytes(255, 0, texts))), 4);
    assert_eq!(rewriting(mapping(&map_bytes(2, 0, texts))), 4);
    assert_eq!(rewriting(mapping(&[0, 0, 0, 0])), 4);
    assert_eq!(rewriting(Precompiled::default()), 4);
    // A unit that leads out of the trie.
    let mut bytes = map_bytes(256, 0, texts);
    bytes[4 + 4 * 65 + 3] = 1;
    assert_eq!(rewriting(mapping(&bytes)), 4);
}

#[test]
fn characters_are_counted_where_there_is_too_much_padding() {
    let padding = |strategy: PaddingStrategy, multiple: Option<usize>| {
        let mut tok = test_tokenizer();
        let params = PaddingParams {
            strategy,
            pad_to_multiple_of: multiple,
            ..PaddingParams::default()
        };
        tok.with_padding(Some(params));
        chunk_count(tok)
    };
    assert_eq!(padding(PaddingStrategy::BatchLongest, None), 1);
    assert_eq!(padding(PaddingStrategy::BatchLongest, Some(2)), 1);
    assert_eq!(padding(PaddingStrategy::BatchLongest, Some(usize::MAX)), 4);
    assert_eq!(padding(PaddingStrategy::Fixed(5), None), 1);
    assert_eq!(padding(PaddingStrategy::Fixed(usize::MAX), None), 4);
}
