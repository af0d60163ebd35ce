//! Splitting a document into chunks of bounded token count.
//!
//! A text is split into paragraphs, a paragraph into sentences, a sentence
//! that is too long into words, and a word that is too long into characters.
//! The resulting units are packed into chunks that share their last units with
//! the next chunk, as far as the overlap allows.

use tokenizers::Tokenizer;
use vstd::prelude::*;

use crate::models::ChunkCandidate;
use crate::text;
use crate::tokens;
use crate::traits::Chunker;

verus! {

// ---- spans ----

/// A range of characters of a text.
#[derive(Clone, Copy)]
pub struct Span {
    pub start: usize,
    pub end: usize,
}

impl View for Span {
    type V = (int, int);

    open spec fn view(&self) -> (int, int) {
        (self.start as int, self.end as int)
    }
}

pub open spec fn span_views(spans: Seq<Span>) -> Seq<(int, int)> {
    spans.map_values(|p: Span| p@)
}

/// The span `lo..hi`, unless it holds nothing but whitespace.
pub open spec fn nonblank_span(s: Seq<char>, lo: int, hi: int) -> Seq<(int, int)> {
    if text::blank(s.subrange(lo, hi)) {
        Seq::empty()
    } else {
        seq![(lo, hi)]
    }
}

// ---- paragraphs ----

/// Whether three newlines stand at `i`.
pub open spec fn breaks_at(s: Seq<char>, i: int) -> bool {
    0 <= i && i + 3 <= s.len() && s[i] == '\n' && s[i + 1] == '\n' && s[i + 2] == '\n'
}

/// The first place at or after `from` with three newlines, or the end.
pub open spec fn next_break(s: Seq<char>, from: int) -> int
    decreases s.len() - from,
{
    if from < 0 || from + 3 > s.len() {
        s.len() as int
    } else if breaks_at(s, from) {
        from
    } else {
        next_break(s, from + 1)
    }
}

/// The paragraphs from `from` on: the stretches between runs of three
/// newlines, without the blank ones.
pub open spec fn paragraph_spans(s: Seq<char>, from: int) -> Seq<(int, int)>
    decreases s.len() - from,
{
    let end = next_break(s, from);
    if from <= end && breaks_at(s, end) {
        nonblank_span(s, from, end) + paragraph_spans(s, end + 3)
    } else {
        nonblank_span(s, from, end)
    }
}

// ---- sentences ----

/// The characters that end a sentence.
pub open spec fn ends_sentence(c: char) -> bool {
    c == '.' || c == '!' || c == '?' || c == '\u{3002}' || c == '\u{ff01}' || c == '\u{ff1f}'
}

/// The first sentence end in `from..hi`, or `hi`.
pub open spec fn next_stop(s: Seq<char>, from: int, hi: int) -> int
    decreases hi - from,
{
    if from >= hi {
        hi
    } else if ends_sentence(s[from]) {
        from
    } else {
        next_stop(s, from + 1, hi)
    }
}

/// The sentences of `lo..hi`: each ends behind a sentence end or at `hi`, and
/// the blank ones are left out.
pub open spec fn sentence_spans(s: Seq<char>, lo: int, hi: int) -> Seq<(int, int)>
    decreases hi - lo,
{
    let stop = next_stop(s, lo, hi);
    if lo >= hi {
        Seq::empty()
    } else if lo <= stop < hi {
        nonblank_span(s, lo, stop + 1) + sentence_spans(s, stop + 1, hi)
    } else {
        nonblank_span(s, lo, hi)
    }
}

/// The sentences of the given paragraphs, in order.
pub open spec fn sentences_of(s: Seq<char>, paragraphs: Seq<(int, int)>) -> Seq<(int, int)>
    decreases paragraphs.len(),
{
    if paragraphs.len() == 0 {
        Seq::empty()
    } else {
        sentences_of(s, paragraphs.drop_last()) + sentence_spans(
            s,
            paragraphs.last().0,
            paragraphs.last().1,
        )
    }
}

/// The sentences of a text.
pub open spec fn text_sentences(s: Seq<char>) -> Seq<(int, int)> {
    sentences_of(s, paragraph_spans(s, 0))
}

// ---- words ----

/// The first index in `from..hi` whose character is whitespace (`ws`) or is
/// not (`!ws`), or `hi`.
pub open spec fn next_ws(s: Seq<char>, from: int, hi: int, ws: bool) -> int
    decreases hi - from,
{
    if from >= hi {
        hi
    } else if text::is_ws(s[from]) == ws {
        from
    } else {
        next_ws(s, from + 1, hi, ws)
    }
}

/// The words of `lo..hi`: the longest stretches without whitespace.
pub open spec fn word_spans(s: Seq<char>, lo: int, hi: int) -> Seq<(int, int)>
    decreases hi - lo,
{
    let a = next_ws(s, lo, hi, false);
    let b = next_ws(s, a, hi, true);
    if lo <= a < b <= hi {
        seq![(a, b)] + word_spans(s, b, hi)
    } else {
        Seq::empty()
    }
}

proof fn lemma_next_break(s: Seq<char>, from: int)
    requires
        0 <= from <= s.len(),
    ensures
        from <= next_break(s, from) <= s.len(),
        forall|k: int| from <= k < next_break(s, from) ==> !breaks_at(s, k),
        next_break(s, from) < s.len() ==> breaks_at(s, next_break(s, from)),
    decreases s.len() - from,
{
    if from + 3 <= s.len() && !breaks_at(s, from) {
        lemma_next_break(s, from + 1);
    }
}

proof fn lemma_next_stop(s: Seq<char>, from: int, hi: int)
    requires
        0 <= from <= hi <= s.len(),
    ensures
        from <= next_stop(s, from, hi) <= hi,
        next_stop(s, from, hi) < hi ==> ends_sentence(s[next_stop(s, from, hi)]),
    decreases hi - from,
{
    if from < hi && !ends_sentence(s[from]) {
        lemma_next_stop(s, from + 1, hi);
    }
}

pub proof fn lemma_next_ws(s: Seq<char>, from: int, hi: int, ws: bool)
    requires
        0 <= from <= hi <= s.len(),
    ensures
        from <= next_ws(s, from, hi, ws) <= hi,
        forall|k: int|
            from <= k < next_ws(s, from, hi, ws) ==> text::is_ws(#[trigger] s[k]) != ws,
        next_ws(s, from, hi, ws) < hi ==> text::is_ws(s[next_ws(s, from, hi, ws)]) == ws,
    decreases hi - from,
{
    if from < hi && text::is_ws(s[from]) != ws {
        lemma_next_ws(s, from + 1, hi, ws);
    }
}

// ---- finding spans ----

fn push_nonblank(chars: &Vec<char>, lo: usize, hi: usize, out: &mut Vec<Span>)
    requires
        lo <= hi <= chars@.len(),
    ensures
        span_views(final(out)@) == span_views(old(out)@) + nonblank_span(
            chars@,
            lo as int,
            hi as int,
        ),
{
    if !text::is_blank_range(chars, lo, hi) {
        out.push(Span { start: lo, end: hi });
        assert(span_views(out@) =~= span_views(old(out)@) + nonblank_span(
            chars@,
            lo as int,
            hi as int,
        ));
    } else {
        assert(span_views(out@) =~= span_views(old(out)@) + nonblank_span(
            chars@,
            lo as int,
            hi as int,
        ));
    }
}

fn find_break(chars: &Vec<char>, from: usize) -> (r: usize)
    requires
        from <= chars@.len(),
    ensures
        r == next_break(chars@, from as int),
{
    let n: usize = chars.len();
    let mut i: usize = from;
    while n >= 3 && i <= n - 3
        invariant
            n == chars@.len(),
            from <= i <= n,
            next_break(chars@, i as int) == next_break(chars@, from as int),
        decreases n - i,
    {
        if chars[i] == '\n' && chars[i + 1] == '\n' && chars[i + 2] == '\n' {
            return i;
        }
        i += 1;
    }
    n
}

/// Splits a text into its paragraphs.
pub fn split_paragraphs(chars: &Vec<char>) -> (r: Vec<Span>)
    ensures
        span_views(r@) == paragraph_spans(chars@, 0),
{
    let n: usize = chars.len();
    let mut out: Vec<Span> = Vec::new();
    let mut from: usize = 0;
    assert(span_views(out@) =~= Seq::empty());
    loop
        invariant
            n == chars@.len(),
            from <= n,
            span_views(out@) + paragraph_spans(chars@, from as int) =~= paragraph_spans(chars@, 0),
        decreases n - from,
    {
        let end: usize = find_break(chars, from);
        proof {
            lemma_next_break(chars@, from as int);
        }
        let ghost before = span_views(out@);
        push_nonblank(chars, from, end, &mut out);
        if end == n {
            assert(before + paragraph_spans(chars@, from as int) =~= span_views(out@));
            return out;
        }
        assert(before + paragraph_spans(chars@, from as int) =~= span_views(out@) + paragraph_spans(
            chars@,
            end + 3,
        ));
        from = end + 3;
    }
}

/// Splits the characters `lo..hi` into sentences, behind the ones in `out`.
pub fn split_sentences(chars: &Vec<char>, lo: usize, hi: usize, out: &mut Vec<Span>)
    requires
        lo <= hi <= chars@.len(),
    ensures
        span_views(final(out)@) == span_views(old(out)@) + sentence_spans(
            chars@,
            lo as int,
            hi as int,
        ),
{
    let ghost start = span_views(out@);
    let mut from: usize = lo;
    let mut i: usize = lo;
    while i < hi
        invariant
            lo <= from <= i <= hi <= chars@.len(),
            next_stop(chars@, i as int, hi as int) == next_stop(chars@, from as int, hi as int),
            span_views(out@) + sentence_spans(chars@, from as int, hi as int) =~= start
                + sentence_spans(chars@, lo as int, hi as int),
        decreases hi - i,
    {
        let c: char = chars[i];
        if c == '.' || c == '!' || c == '?' || c == '\u{3002}' || c == '\u{ff01}' || c
            == '\u{ff1f}' {
            let ghost before = span_views(out@);
            push_nonblank(chars, from, i + 1, out);
            assert(before + sentence_spans(chars@, from as int, hi as int) =~= span_views(out@)
                + sentence_spans(chars@, i + 1, hi as int));
            from = i + 1;
        }
        i += 1;
    }
    let ghost before = span_views(out@);
    if from < hi {
        push_nonblank(chars, from, hi, out);
    }
    assert(before + sentence_spans(chars@, from as int, hi as int) =~= span_views(out@));
}

/// The sentences of a text, in order.
pub fn split_text(chars: &Vec<char>) -> (r: Vec<Span>)
    ensures
        span_views(r@) == text_sentences(chars@),
{
    let paragraphs = split_paragraphs(chars);
    let mut out: Vec<Span> = Vec::new();
    let mut k: usize = 0;
    let ghost all = paragraph_spans(chars@, 0);
    assert(span_views(out@) =~= sentences_of(chars@, all.take(0)));
    proof {
        lemma_paragraphs_inside(chars@, 0);
    }
    while k < paragraphs.len()
        invariant
            k <= paragraphs@.len(),
            span_views(paragraphs@) == all,
            spans_inside(all, chars@.len() as int),
            span_views(out@) == sentences_of(chars@, all.take(k as int)),
        decreases paragraphs@.len() - k,
    {
        let p = paragraphs[k];
        assert(all[k as int] == p@);
        assert(all.take(k + 1).drop_last() =~= all.take(k as int));
        split_sentences(chars, p.start, p.end, &mut out);
        k += 1;
    }
    assert(all.take(k as int) =~= all);
    out
}

/// Splits the characters `lo..hi` into words.
pub fn split_words(chars: &Vec<char>, lo: usize, hi: usize) -> (r: Vec<Span>)
    requires
        lo <= hi <= chars@.len(),
    ensures
        span_views(r@) == word_spans(chars@, lo as int, hi as int),
{
    let mut out: Vec<Span> = Vec::new();
    let mut from: usize = lo;
    assert(span_views(out@) =~= Seq::empty());
    loop
        invariant
            lo <= from <= hi <= chars@.len(),
            span_views(out@) + word_spans(chars@, from as int, hi as int) =~= word_spans(
                chars@,
                lo as int,
                hi as int,
            ),
        decreases hi - from,
    {
        let a: usize = find_ws(chars, from, hi, false);
        if a == hi {
            assert(word_spans(chars@, from as int, hi as int) =~= Seq::empty());
            assert(span_views(out@) =~= word_spans(chars@, lo as int, hi as int));
            return out;
        }
        let b: usize = find_ws(chars, a, hi, true);
        proof {
            lemma_next_ws(chars@, from as int, hi as int, false);
            lemma_next_ws(chars@, a as int, hi as int, true);
        }
        let ghost before = span_views(out@);
        out.push(Span { start: a, end: b });
        assert(span_views(out@) =~= before.push((a as int, b as int)));
        assert(before + word_spans(chars@, from as int, hi as int) =~= span_views(out@)
            + word_spans(chars@, b as int, hi as int));
        from = b;
    }
}

fn find_ws(chars: &Vec<char>, from: usize, hi: usize, ws: bool) -> (r: usize)
    requires
        from <= hi <= chars@.len(),
    ensures
        r == next_ws(chars@, from as int, hi as int, ws),
        from <= r <= hi,
{
    let mut i: usize = from;
    while i < hi
        invariant
            from <= i <= hi <= chars@.len(),
            next_ws(chars@, i as int, hi as int, ws) == next_ws(
                chars@,
                from as int,
                hi as int,
                ws,
            ),
        decreases hi - i,
    {
        if text::is_whitespace(chars[i]) == ws {
            return i;
        }
        i += 1;
    }
    hi
}

// ---- spans stay in order and inside the text ----

/// Whether the spans are not empty, in order, apart from each other, and end
/// at or before `n`.
pub open spec fn spans_inside(spans: Seq<(int, int)>, n: int) -> bool {
    &&& forall|k: int|
        0 <= k < spans.len() ==> 0 <= (#[trigger] spans[k]).0 < spans[k].1 <= n
    &&& forall|j: int, k: int|
        0 <= j < k < spans.len() ==> (#[trigger] spans[j]).1 <= (#[trigger] spans[k]).0
}

/// Whether all spans lie in `lo..hi`.
pub open spec fn spans_between(spans: Seq<(int, int)>, lo: int, hi: int) -> bool {
    &&& spans_inside(spans, hi)
    &&& forall|k: int| 0 <= k < spans.len() ==> lo <= (#[trigger] spans[k]).0
}

proof fn lemma_nonblank_between(s: Seq<char>, lo: int, hi: int)
    requires
        0 <= lo <= hi <= s.len(),
    ensures
        spans_between(nonblank_span(s, lo, hi), lo, hi),
{
    if lo == hi {
        assert(s.subrange(lo, hi).len() == 0);
    }
}

proof fn lemma_between_concat(
    a: Seq<(int, int)>,
    b: Seq<(int, int)>,
    lo: int,
    mid: int,
    mid2: int,
    hi: int,
)
    requires
        spans_between(a, lo, mid),
        spans_between(b, mid2, hi),
        lo <= mid <= mid2 <= hi,
    ensures
        spans_between(a + b, lo, hi),
{
    let c = a + b;
    assert forall|k: int| 0 <= k < c.len() implies 0 <= (#[trigger] c[k]).0 < c[k].1 <= hi && lo
        <= c[k].0 by {
        if k < a.len() {
            assert(c[k] == a[k]);
        } else {
            assert(c[k] == b[k - a.len()]);
        }
    }
    assert forall|j: int, k: int| 0 <= j < k < c.len() implies (#[trigger] c[j]).1 <= (#[trigger] c[k]).0 by {
        if k < a.len() {
            assert(c[j] == a[j] && c[k] == a[k]);
        } else if j >= a.len() {
            assert(c[j] == b[j - a.len()] && c[k] == b[k - a.len()]);
        } else {
            assert(c[j] == a[j] && c[k] == b[k - a.len()]);
        }
    }
}

pub proof fn lemma_paragraphs_inside(s: Seq<char>, from: int)
    requires
        0 <= from <= s.len(),
    ensures
        spans_between(paragraph_spans(s, from), from, s.len() as int),
        spans_inside(paragraph_spans(s, from), s.len() as int),
    decreases s.len() - from,
{
    lemma_next_break(s, from);
    let end = next_break(s, from);
    lemma_nonblank_between(s, from, end);
    if breaks_at(s, end) {
        lemma_paragraphs_inside(s, end + 3);
        lemma_between_concat(
            nonblank_span(s, from, end),
            paragraph_spans(s, end + 3),
            from,
            end,
            end + 3,
            s.len() as int,
        );
    }
}

// ---- units ----

/// A piece of text that is never split across chunks, with its token count.
pub struct UnitModel {
    pub start: int,
    pub end: int,
    pub tokens: nat,
}

/// A piece of text that is never split across chunks, with its token count.
#[derive(Clone, Copy)]
pub struct Unit {
    pub start: usize,
    pub end: usize,
    pub tokens: usize,
}

impl View for Unit {
    type V = UnitModel;

    open spec fn view(&self) -> UnitModel {
        UnitModel { start: self.start as int, end: self.end as int, tokens: self.tokens as nat }
    }
}

pub open spec fn unit_views(units: Seq<Unit>) -> Seq<UnitModel> {
    units.map_values(|u: Unit| u@)
}

/// One unit of one token for each character of `lo..hi`.
pub open spec fn char_units(lo: int, hi: int) -> Seq<UnitModel> {
    Seq::new(
        if lo <= hi {
            (hi - lo) as nat
        } else {
            0
        },
        |k: int| UnitModel { start: lo + k, end: lo + k + 1, tokens: 1 },
    )
}

/// The units of one word: the word itself where it fits, else its characters.
pub open spec fn word_units(word: (int, int), tokens: usize, size: usize) -> Seq<UnitModel> {
    if tokens <= size {
        seq![UnitModel { start: word.0, end: word.1, tokens: tokens as nat }]
    } else {
        char_units(word.0, word.1)
    }
}

/// The units of the given words, in order.
pub open spec fn words_units(words: Seq<(int, int)>, counts: Seq<usize>, size: usize) -> Seq<
    UnitModel,
>
    decreases words.len(),
{
    if words.len() == 0 {
        Seq::empty()
    } else {
        words_units(words.drop_last(), counts, size) + word_units(
            words.last(),
            counts[words.len() - 1],
            size,
        )
    }
}

/// The units of one sentence: the sentence itself where it fits, else the
/// units of its words.
pub open spec fn sentence_units(
    s: Seq<char>,
    sentence: (int, int),
    tokens: usize,
    word_counts: Seq<usize>,
    size: usize,
) -> Seq<UnitModel> {
    if tokens <= size {
        seq![UnitModel { start: sentence.0, end: sentence.1, tokens: tokens as nat }]
    } else {
        words_units(word_spans(s, sentence.0, sentence.1), word_counts, size)
    }
}

/// The units of the given sentences, in order.
pub open spec fn sentences_units(
    s: Seq<char>,
    sentences: Seq<(int, int)>,
    counts: Counts,
    size: usize,
) -> Seq<UnitModel>
    decreases sentences.len(),
{
    if sentences.len() == 0 {
        Seq::empty()
    } else {
        let k = sentences.len() - 1;
        sentences_units(s, sentences.drop_last(), counts, size) + sentence_units(
            s,
            sentences[k],
            counts.sentences[k],
            counts.words[k],
            size,
        )
    }
}

/// Token counts of a text: one per sentence, and for each sentence one per
/// word.
pub struct Counts {
    pub sentences: Seq<usize>,
    pub words: Seq<Seq<usize>>,
}

/// Token counts of a text: `sentences` has one for each sentence, and `words`
/// has, for each sentence, one for each word. The words' counts are read only
/// of sentences that are too long for a chunk.
pub struct TokenCounts {
    pub sentences: Vec<usize>,
    pub words: Vec<Vec<usize>>,
}

impl View for TokenCounts {
    type V = Counts;

    open spec fn view(&self) -> Counts {
        Counts {
            sentences: self.sentences@,
            words: self.words@.map_values(|v: Vec<usize>| v@),
        }
    }
}

/// Whether there is a count for everything that is counted in `s`.
pub open spec fn counts_cover(s: Seq<char>, counts: Counts, size: usize) -> bool {
    let sentences = text_sentences(s);
    &&& counts.sentences.len() == sentences.len()
    &&& counts.words.len() == sentences.len()
    &&& forall|k: int|
        0 <= k < sentences.len() && (#[trigger] counts.sentences[k]) > size
            ==> counts.words[k].len() == word_spans(s, sentences[k].0, sentences[k].1).len()
}

/// The units of a text.
pub open spec fn text_units(s: Seq<char>, counts: Counts, size: usize) -> Seq<UnitModel> {
    sentences_units(s, text_sentences(s), counts, size)
}

// ---- packing ----

/// The tokens of the units `a..b`.
pub open spec fn token_sum(units: Seq<UnitModel>, a: int, b: int) -> nat
    decreases b - a,
{
    if a >= b {
        0
    } else {
        token_sum(units, a, b - 1) + units[b - 1].tokens
    }
}

/// Steps back from `b` while the units up to `i` stay within `overlap` tokens,
/// but not beyond `a`.
pub open spec fn overlap_from(
    units: Seq<UnitModel>,
    a: int,
    b: int,
    i: int,
    overlap: usize,
) -> int
    decreases b - a,
{
    if a < b && token_sum(units, b - 1, i) <= overlap {
        overlap_from(units, a, b - 1, i, overlap)
    } else {
        b
    }
}

/// The tokens that a chunk may repeat from the one before it, in front of a unit
/// of `tokens` tokens: the overlap, but no more than leaves room for the unit.
pub open spec fn overlap_room(tokens: nat, size: usize, overlap: usize) -> usize {
    if overlap + tokens <= size {
        overlap
    } else if tokens <= size {
        (size - tokens) as usize
    } else {
        0
    }
}

/// Packs units into chunks, as ranges of unit indices. `a..i` is the chunk in
/// the making, and `i` the next unit.
///
/// A chunk ends in front of the unit that would take it over `size` tokens.
/// The next one starts with the last units of it that have no more than
/// `overlap` tokens together, and that leave room for that unit.
pub open spec fn pack(units: Seq<UnitModel>, a: int, i: int, size: usize, overlap: usize) -> Seq<
    (int, int),
>
    decreases units.len() - i,
{
    if i >= units.len() {
        if a < i {
            seq![(a, i)]
        } else {
            Seq::empty()
        }
    } else if a < i && token_sum(units, a, i) + units[i].tokens > size {
        let room = overlap_room(units[i].tokens, size, overlap);
        seq![(a, i)] + pack(units, overlap_from(units, a, i, i, room), i + 1, size, overlap)
    } else {
        pack(units, a, i + 1, size, overlap)
    }
}

/// The characters that a range of units spans.
pub open spec fn packed_span(units: Seq<UnitModel>, p: (int, int)) -> (int, int) {
    (units[p.0].start, units[p.1 - 1].end)
}

/// The chunks of a text, as spans of characters.
pub open spec fn chunk_spans(s: Seq<char>, counts: Counts, size: usize, overlap: usize) -> Seq<
    (int, int),
> {
    let units = text_units(s, counts, size);
    pack(units, 0, 0, size, overlap).map_values(|p: (int, int)| packed_span(units, p))
}

/// Whether `chunk` is the part of `s` that `span` marks.
pub open spec fn is_part(chunk: ChunkCandidate, s: Seq<char>, span: (int, int)) -> bool {
    &&& chunk.text@ == s.subrange(span.0, span.1)
    &&& chunk.byte_range.start as nat == text::byte_offset(s, span.0)
    &&& chunk.byte_range.end as nat == text::byte_offset(s, span.1)
}

/// Whether the chunks are the parts of `s` that the spans mark.
pub open spec fn are_parts(
    chunks: Seq<ChunkCandidate>,
    s: Seq<char>,
    spans: Seq<(int, int)>,
) -> bool {
    &&& chunks.len() == spans.len()
    &&& forall|k: int| 0 <= k < chunks.len() ==> is_part(#[trigger] chunks[k], s, spans[k])
}

// ---- units stay in order and inside the text ----

pub open spec fn unit_spans(units: Seq<UnitModel>) -> Seq<(int, int)> {
    units.map_values(|u: UnitModel| (u.start, u.end))
}

proof fn lemma_unit_spans_concat(a: Seq<UnitModel>, b: Seq<UnitModel>)
    ensures
        unit_spans(a + b) == unit_spans(a) + unit_spans(b),
{
    assert(unit_spans(a + b) =~= unit_spans(a) + unit_spans(b));
}

proof fn lemma_sentence_spans_between(s: Seq<char>, lo: int, hi: int)
    requires
        0 <= lo <= hi <= s.len(),
    ensures
        spans_between(sentence_spans(s, lo, hi), lo, hi),
    decreases hi - lo,
{
    lemma_next_stop(s, lo, hi);
    let stop = next_stop(s, lo, hi);
    if lo < hi {
        if stop < hi {
            lemma_nonblank_between(s, lo, stop + 1);
            lemma_sentence_spans_between(s, stop + 1, hi);
            lemma_between_concat(
                nonblank_span(s, lo, stop + 1),
                sentence_spans(s, stop + 1, hi),
                lo,
                stop + 1,
                stop + 1,
                hi,
            );
        } else {
            lemma_nonblank_between(s, lo, hi);
        }
    }
}

/// The end of the last span, or `lo`.
pub open spec fn last_end(spans: Seq<(int, int)>, lo: int) -> int {
    if spans.len() == 0 {
        lo
    } else {
        spans.last().1
    }
}

proof fn lemma_drop_last_between(spans: Seq<(int, int)>, lo: int, hi: int)
    requires
        spans_between(spans, lo, hi),
        spans.len() > 0,
        0 <= lo,
    ensures
        spans_between(spans.drop_last(), lo, spans.last().0),
        lo <= last_end(spans.drop_last(), lo) <= spans.last().0,
        0 <= spans.last().0 < spans.last().1 <= hi,
{
    let d = spans.drop_last();
    let n = spans.len() as int;
    assert(spans.last() == spans[n - 1]);
    assert forall|k: int| 0 <= k < d.len() implies 0 <= (#[trigger] d[k]).0 < d[k].1 <= spans.last().0 && lo
        <= d[k].0 by {
        assert(d[k] == spans[k]);
    }
    assert forall|j: int, k: int| 0 <= j < k < d.len() implies (#[trigger] d[j]).1 <= (#[trigger] d[k]).0 by {
        assert(d[j] == spans[j] && d[k] == spans[k]);
    }
    if d.len() > 0 {
        assert(d.last() == d[d.len() - 1]);
    }
}

proof fn lemma_sentences_between(s: Seq<char>, paragraphs: Seq<(int, int)>, hi: int)
    requires
        spans_between(paragraphs, 0, hi),
        hi <= s.len(),
    ensures
        spans_between(sentences_of(s, paragraphs), 0, last_end(paragraphs, 0)),
        last_end(paragraphs, 0) <= s.len(),
    decreases paragraphs.len(),
{
    if paragraphs.len() > 0 {
        let last = paragraphs.last();
        lemma_drop_last_between(paragraphs, 0, hi);
        lemma_sentences_between(s, paragraphs.drop_last(), last.0);
        lemma_sentence_spans_between(s, last.0, last.1);
        lemma_between_concat(
            sentences_of(s, paragraphs.drop_last()),
            sentence_spans(s, last.0, last.1),
            0,
            last_end(paragraphs.drop_last(), 0),
            last.0,
            last.1,
        );
    }
}

pub proof fn lemma_text_sentences_inside(s: Seq<char>)
    ensures
        spans_between(text_sentences(s), 0, s.len() as int),
{
    lemma_paragraphs_inside(s, 0);
    lemma_sentences_between(s, paragraph_spans(s, 0), s.len() as int);
}

pub proof fn lemma_words_between(s: Seq<char>, lo: int, hi: int)
    requires
        0 <= lo <= hi <= s.len(),
    ensures
        spans_between(word_spans(s, lo, hi), lo, hi),
    decreases hi - lo,
{
    lemma_next_ws(s, lo, hi, false);
    let a = next_ws(s, lo, hi, false);
    lemma_next_ws(s, a, hi, true);
    let b = next_ws(s, a, hi, true);
    if lo <= a < b <= hi {
        lemma_words_between(s, b, hi);
        let one = seq![(a, b)];
        assert(spans_between(one, lo, b));
        lemma_between_concat(one, word_spans(s, b, hi), lo, b, b, hi);
    }
}

proof fn lemma_word_units_between(word: (int, int), tokens: usize, size: usize)
    requires
        0 <= word.0 < word.1,
    ensures
        spans_between(unit_spans(word_units(word, tokens, size)), word.0, word.1),
{
    let u = unit_spans(word_units(word, tokens, size));
    assert forall|k: int| 0 <= k < u.len() implies 0 <= (#[trigger] u[k]).0 < u[k].1 <= word.1 && word.0
        <= u[k].0 by {}
    assert forall|j: int, k: int| 0 <= j < k < u.len() implies (#[trigger] u[j]).1 <= (#[trigger] u[k]).0 by {}
}

proof fn lemma_words_units_between(
    words: Seq<(int, int)>,
    counts: Seq<usize>,
    size: usize,
    lo: int,
    hi: int,
)
    requires
        spans_between(words, lo, hi),
        0 <= lo <= hi,
    ensures
        spans_between(unit_spans(words_units(words, counts, size)), lo, last_end(words, lo)),
    decreases words.len(),
{
    if words.len() > 0 {
        let last = words.last();
        lemma_drop_last_between(words, lo, hi);
        lemma_words_units_between(words.drop_last(), counts, size, lo, last.0);
        let tail = word_units(last, counts[words.len() - 1], size);
        lemma_word_units_between(last, counts[words.len() - 1], size);
        lemma_unit_spans_concat(words_units(words.drop_last(), counts, size), tail);
        lemma_between_concat(
            unit_spans(words_units(words.drop_last(), counts, size)),
            unit_spans(tail),
            lo,
            last_end(words.drop_last(), lo),
            last.0,
            last.1,
        );
    } else {
        assert(unit_spans(words_units(words, counts, size)) =~= Seq::empty());
    }
}

proof fn lemma_widen(spans: Seq<(int, int)>, lo: int, mid: int, hi: int)
    requires
        spans_between(spans, lo, mid),
        mid <= hi,
    ensures
        spans_between(spans, lo, hi),
{
    assert forall|k: int| 0 <= k < spans.len() implies 0 <= (#[trigger] spans[k]).0 < spans[k].1 <= hi by {}
}

proof fn lemma_sentence_units_between(
    s: Seq<char>,
    sentence: (int, int),
    tokens: usize,
    word_counts: Seq<usize>,
    size: usize,
)
    requires
        0 <= sentence.0 < sentence.1 <= s.len(),
    ensures
        spans_between(
            unit_spans(sentence_units(s, sentence, tokens, word_counts, size)),
            sentence.0,
            sentence.1,
        ),
{
    if tokens <= size {
        let u = unit_spans(sentence_units(s, sentence, tokens, word_counts, size));
        assert(u.len() == 1);
    } else {
        let words = word_spans(s, sentence.0, sentence.1);
        lemma_words_between(s, sentence.0, sentence.1);
        lemma_words_units_between(words, word_counts, size, sentence.0, sentence.1);
        if words.len() > 0 {
            assert(words.last() == words[words.len() - 1]);
        }
        lemma_widen(
            unit_spans(words_units(words, word_counts, size)),
            sentence.0,
            last_end(words, sentence.0),
            sentence.1,
        );
    }
}

proof fn lemma_sentences_units_between(
    s: Seq<char>,
    sentences: Seq<(int, int)>,
    counts: Counts,
    size: usize,
    hi: int,
)
    requires
        spans_between(sentences, 0, hi),
        hi <= s.len(),
    ensures
        spans_between(
            unit_spans(sentences_units(s, sentences, counts, size)),
            0,
            last_end(sentences, 0),
        ),
        last_end(sentences, 0) <= s.len(),
    decreases sentences.len(),
{
    if sentences.len() > 0 {
        let k = sentences.len() - 1;
        let last = sentences.last();
        lemma_drop_last_between(sentences, 0, hi);
        lemma_sentences_units_between(s, sentences.drop_last(), counts, size, last.0);
        let tail = sentence_units(s, last, counts.sentences[k], counts.words[k], size);
        lemma_sentence_units_between(s, last, counts.sentences[k], counts.words[k], size);
        lemma_unit_spans_concat(sentences_units(s, sentences.drop_last(), counts, size), tail);
        lemma_between_concat(
            unit_spans(sentences_units(s, sentences.drop_last(), counts, size)),
            unit_spans(tail),
            0,
            last_end(sentences.drop_last(), 0),
            last.0,
            last.1,
        );
    } else {
        assert(unit_spans(sentences_units(s, sentences, counts, size)) =~= Seq::empty());
    }
}

/// The units of a text are not empty, in order, apart from each other, and
/// inside the text.
pub proof fn lemma_text_units_inside(s: Seq<char>, counts: Counts, size: usize)
    ensures
        spans_between(unit_spans(text_units(s, counts, size)), 0, s.len() as int),
{
    lemma_text_sentences_inside(s);
    lemma_sentences_units_between(s, text_sentences(s), counts, size, s.len() as int);
    lemma_widen(
        unit_spans(text_units(s, counts, size)),
        0,
        last_end(text_sentences(s), 0),
        s.len() as int,
    );
}

// ---- what chunking guarantees ----

/// Whether some span holds the character `i`.
pub open spec fn covers(spans: Seq<(int, int)>, i: int) -> bool {
    exists|k: int| 0 <= k < spans.len() && (#[trigger] spans[k]).0 <= i < spans[k].1
}

proof fn lemma_covers_concat(a: Seq<(int, int)>, b: Seq<(int, int)>, i: int)
    requires
        covers(a, i) || covers(b, i),
    ensures
        covers(a + b, i),
{
    let c = a + b;
    if covers(a, i) {
        let k = choose|k: int| 0 <= k < a.len() && (#[trigger] a[k]).0 <= i < a[k].1;
        assert(c[k] == a[k]);
    } else {
        let k = choose|k: int| 0 <= k < b.len() && (#[trigger] b[k]).0 <= i < b[k].1;
        assert(c[k + a.len()] == b[k]);
    }
}

proof fn lemma_nonblank_covers(s: Seq<char>, lo: int, hi: int, i: int)
    requires
        0 <= lo <= i < hi <= s.len(),
        !text::is_ws(s[i]),
    ensures
        covers(nonblank_span(s, lo, hi), i),
{
    assert(s.subrange(lo, hi)[i - lo] == s[i]);
    let spans = nonblank_span(s, lo, hi);
    assert(spans[0] == (lo, hi));
}

proof fn lemma_paragraphs_cover(s: Seq<char>, from: int, i: int)
    requires
        0 <= from <= i < s.len(),
        !text::is_ws(s[i]),
    ensures
        covers(paragraph_spans(s, from), i),
    decreases s.len() - from,
{
    lemma_next_break(s, from);
    let end = next_break(s, from);
    if i < end {
        lemma_nonblank_covers(s, from, end, i);
        if breaks_at(s, end) {
            lemma_covers_concat(nonblank_span(s, from, end), paragraph_spans(s, end + 3), i);
        }
    } else {
        assert(text::is_ws('\n'));
        assert(i >= end + 3);
        lemma_paragraphs_cover(s, end + 3, i);
        lemma_covers_concat(nonblank_span(s, from, end), paragraph_spans(s, end + 3), i);
    }
}

proof fn lemma_sentence_spans_cover(s: Seq<char>, lo: int, hi: int, i: int)
    requires
        0 <= lo <= i < hi <= s.len(),
        !text::is_ws(s[i]),
    ensures
        covers(sentence_spans(s, lo, hi), i),
    decreases hi - lo,
{
    lemma_next_stop(s, lo, hi);
    let stop = next_stop(s, lo, hi);
    if stop < hi {
        if i <= stop {
            lemma_nonblank_covers(s, lo, stop + 1, i);
        } else {
            lemma_sentence_spans_cover(s, stop + 1, hi, i);
        }
        lemma_covers_concat(
            nonblank_span(s, lo, stop + 1),
            sentence_spans(s, stop + 1, hi),
            i,
        );
    } else {
        lemma_nonblank_covers(s, lo, hi, i);
    }
}

proof fn lemma_sentences_cover(s: Seq<char>, paragraphs: Seq<(int, int)>, hi: int, i: int)
    requires
        spans_between(paragraphs, 0, hi),
        hi <= s.len(),
        covers(paragraphs, i),
        !text::is_ws(s[i]),
    ensures
        covers(sentences_of(s, paragraphs), i),
    decreases paragraphs.len(),
{
    let k = choose|k: int|
        0 <= k < paragraphs.len() && (#[trigger] paragraphs[k]).0 <= i < paragraphs[k].1;
    let last = paragraphs.last();
    lemma_drop_last_between(paragraphs, 0, hi);
    if k == paragraphs.len() - 1 {
        lemma_sentence_spans_cover(s, last.0, last.1, i);
    } else {
        assert(paragraphs.drop_last()[k] == paragraphs[k]);
        lemma_sentences_cover(s, paragraphs.drop_last(), last.0, i);
    }
    lemma_covers_concat(
        sentences_of(s, paragraphs.drop_last()),
        sentence_spans(s, last.0, last.1),
        i,
    );
}

proof fn lemma_word_spans_cover(s: Seq<char>, lo: int, hi: int, i: int)
    requires
        0 <= lo <= i < hi <= s.len(),
        !text::is_ws(s[i]),
    ensures
        covers(word_spans(s, lo, hi), i),
    decreases hi - lo,
{
    lemma_next_ws(s, lo, hi, false);
    let a = next_ws(s, lo, hi, false);
    assert(a <= i);
    lemma_next_ws(s, a, hi, true);
    let b = next_ws(s, a, hi, true);
    let one = seq![(a, b)];
    if i < b {
        assert(one[0] == (a, b));
        assert(covers(one, i));
    } else {
        lemma_word_spans_cover(s, b, hi, i);
    }
    lemma_covers_concat(one, word_spans(s, b, hi), i);
}

proof fn lemma_word_units_cover(word: (int, int), tokens: usize, size: usize, i: int)
    requires
        word.0 <= i < word.1,
    ensures
        covers(unit_spans(word_units(word, tokens, size)), i),
{
    let u = unit_spans(word_units(word, tokens, size));
    if tokens <= size {
        assert(u[0] == word);
    } else {
        assert(u[i - word.0] == (i, i + 1));
    }
}

proof fn lemma_words_units_cover(
    words: Seq<(int, int)>,
    counts: Seq<usize>,
    size: usize,
    i: int,
)
    requires
        covers(words, i),
    ensures
        covers(unit_spans(words_units(words, counts, size)), i),
    decreases words.len(),
{
    let k = choose|k: int| 0 <= k < words.len() && (#[trigger] words[k]).0 <= i < words[k].1;
    let tail = word_units(words.last(), counts[words.len() - 1], size);
    if k == words.len() - 1 {
        lemma_word_units_cover(words.last(), counts[words.len() - 1], size, i);
    } else {
        assert(words.drop_last()[k] == words[k]);
        lemma_words_units_cover(words.drop_last(), counts, size, i);
    }
    lemma_unit_spans_concat(words_units(words.drop_last(), counts, size), tail);
    lemma_covers_concat(
        unit_spans(words_units(words.drop_last(), counts, size)),
        unit_spans(tail),
        i,
    );
}

proof fn lemma_sentences_units_cover(
    s: Seq<char>,
    sentences: Seq<(int, int)>,
    counts: Counts,
    size: usize,
    hi: int,
    i: int,
)
    requires
        spans_between(sentences, 0, hi),
        hi <= s.len(),
        covers(sentences, i),
        !text::is_ws(s[i]),
    ensures
        covers(unit_spans(sentences_units(s, sentences, counts, size)), i),
    decreases sentences.len(),
{
    let k = choose|k: int|
        0 <= k < sentences.len() && (#[trigger] sentences[k]).0 <= i < sentences[k].1;
    let n = sentences.len() - 1;
    let last = sentences.last();
    let tail = sentence_units(s, last, counts.sentences[n], counts.words[n], size);
    lemma_drop_last_between(sentences, 0, hi);
    if k == n {
        if counts.sentences[n] <= size {
            assert(unit_spans(tail)[0] == last);
        } else {
            lemma_word_spans_cover(s, last.0, last.1, i);
            lemma_words_units_cover(word_spans(s, last.0, last.1), counts.words[n], size, i);
        }
    } else {
        assert(sentences.drop_last()[k] == sentences[k]);
        lemma_sentences_units_cover(s, sentences.drop_last(), counts, size, last.0, i);
    }
    lemma_unit_spans_concat(sentences_units(s, sentences.drop_last(), counts, size), tail);
    lemma_covers_concat(
        unit_spans(sentences_units(s, sentences.drop_last(), counts, size)),
        unit_spans(tail),
        i,
    );
}

/// Whether the ranges start at `a`, end at `n`, and move forward: none starts
/// before the one in front of it, and each ends later.
pub open spec fn packed_forward(ps: Seq<(int, int)>, a: int, i: int, n: int) -> bool {
    &&& forall|k: int|
        0 <= k < ps.len() ==> a <= (#[trigger] ps[k]).0 < ps[k].1 <= n && i <= ps[k].1
    &&& forall|j: int, k: int|
        0 <= j < k < ps.len() ==> (#[trigger] ps[j]).0 <= (#[trigger] ps[k]).0 && ps[j].1 < ps[k].1
    &&& forall|m: int| a <= m < n ==> #[trigger] covers(ps, m)
}

proof fn lemma_pack_forward(
    units: Seq<UnitModel>,
    a: int,
    i: int,
    size: usize,
    overlap: usize,
)
    requires
        0 <= a <= i <= units.len(),
    ensures
        packed_forward(pack(units, a, i, size, overlap), a, i, units.len() as int),
    decreases units.len() - i,
{
    let ps = pack(units, a, i, size, overlap);
    let n = units.len() as int;
    if i >= units.len() {
        assert forall|m: int| a <= m < n implies #[trigger] covers(ps, m) by {
            assert(ps[0] == (a, i));
        }
    } else if a < i && token_sum(units, a, i) + units[i].tokens > size {
        let room = overlap_room(units[i].tokens, size, overlap);
        let b = overlap_from(units, a, i, i, room);
        lemma_overlap_from(units, a, i, i, room);
        lemma_pack_forward(units, b, i + 1, size, overlap);
        let one = seq![(a, i)];
        let rest = pack(units, b, i + 1, size, overlap);
        assert(ps == one + rest);
        assert forall|k: int| 0 <= k < ps.len() implies a <= (#[trigger] ps[k]).0 < ps[k].1 <= n && i
            <= ps[k].1 by {
            if k > 0 {
                assert(ps[k] == rest[k - 1]);
            }
        }
        assert forall|j: int, k: int| 0 <= j < k < ps.len() implies (#[trigger] ps[j]).0
            <= (#[trigger] ps[k]).0 && ps[j].1 < ps[k].1 by {
            assert(ps[k] == rest[k - 1]);
            if j > 0 {
                assert(ps[j] == rest[j - 1]);
            }
        }
        assert forall|m: int| a <= m < n implies #[trigger] covers(ps, m) by {
            if m < i {
                assert(one[0] == (a, i));
                assert(covers(one, m));
            }
            lemma_covers_concat(one, rest, m);
        }
    } else {
        lemma_pack_forward(units, a, i + 1, size, overlap);
    }
}

/// The most tokens that one unit can have.
pub open spec fn unit_limit(size: usize) -> nat {
    if size == 0 {
        1
    } else {
        size as nat
    }
}

pub open spec fn units_limited(units: Seq<UnitModel>, size: usize) -> bool {
    forall|k: int| 0 <= k < units.len() ==> (#[trigger] units[k]).tokens <= unit_limit(size)
}

proof fn lemma_limited_concat(a: Seq<UnitModel>, b: Seq<UnitModel>, size: usize)
    requires
        units_limited(a, size),
        units_limited(b, size),
    ensures
        units_limited(a + b, size),
{
    let c = a + b;
    assert forall|k: int| 0 <= k < c.len() implies (#[trigger] c[k]).tokens <= unit_limit(size) by {
        if k < a.len() {
            assert(c[k] == a[k]);
        } else {
            assert(c[k] == b[k - a.len()]);
        }
    }
}

proof fn lemma_words_units_limited(words: Seq<(int, int)>, counts: Seq<usize>, size: usize)
    ensures
        units_limited(words_units(words, counts, size), size),
    decreases words.len(),
{
    if words.len() > 0 {
        lemma_words_units_limited(words.drop_last(), counts, size);
        lemma_limited_concat(
            words_units(words.drop_last(), counts, size),
            word_units(words.last(), counts[words.len() - 1], size),
            size,
        );
    }
}

proof fn lemma_sentences_units_limited(
    s: Seq<char>,
    sentences: Seq<(int, int)>,
    counts: Counts,
    size: usize,
)
    ensures
        units_limited(sentences_units(s, sentences, counts, size), size),
    decreases sentences.len(),
{
    if sentences.len() > 0 {
        let k = sentences.len() - 1;
        let tail = sentence_units(
            s,
            sentences[k],
            counts.sentences[k],
            counts.words[k],
            size,
        );
        lemma_sentences_units_limited(s, sentences.drop_last(), counts, size);
        lemma_words_units_limited(
            word_spans(s, sentences[k].0, sentences[k].1),
            counts.words[k],
            size,
        );
        lemma_limited_concat(
            sentences_units(s, sentences.drop_last(), counts, size),
            tail,
            size,
        );
    }
}

/// Whether each range of units has at most `most` tokens.
pub open spec fn packed_limited(units: Seq<UnitModel>, ps: Seq<(int, int)>, most: int) -> bool {
    forall|k: int|
        0 <= k < ps.len() ==> token_sum(units, (#[trigger] ps[k]).0, ps[k].1) <= most
}

proof fn lemma_pack_limited(
    units: Seq<UnitModel>,
    a: int,
    i: int,
    size: usize,
    overlap: usize,
)
    requires
        0 <= a <= i <= units.len(),
        units_limited(units, size),
        token_sum(units, a, i) <= unit_limit(size),
    ensures
        packed_limited(units, pack(units, a, i, size, overlap), unit_limit(size) as int),
    decreases units.len() - i,
{
    let ps = pack(units, a, i, size, overlap);
    let most = unit_limit(size);
    if i < units.len() {
        assert(units[i].tokens <= unit_limit(size));
        if a < i && token_sum(units, a, i) + units[i].tokens > size {
            let room = overlap_room(units[i].tokens, size, overlap);
            let b = overlap_from(units, a, i, i, room);
            lemma_overlap_from(units, a, i, i, room);
            assert(token_sum(units, b, i + 1) == token_sum(units, b, i) + units[i].tokens);
            lemma_pack_limited(units, b, i + 1, size, overlap);
            let rest = pack(units, b, i + 1, size, overlap);
            assert forall|k: int| 0 <= k < ps.len() implies token_sum(
                units,
                (#[trigger] ps[k]).0,
                ps[k].1,
            ) <= most by {
                if k > 0 {
                    assert(ps[k] == rest[k - 1]);
                }
            }
        } else {
            assert(token_sum(units, a, i + 1) == token_sum(units, a, i) + units[i].tokens);
            lemma_pack_limited(units, a, i + 1, size, overlap);
        }
    }
}

/// Chunks move forward through the text: each is a span of at least one
/// character inside the text, none starts before the one in front of it, and
/// each ends later than the one in front of it.
pub proof fn law_chunks_move_forward(s: Seq<char>, counts: Counts, size: usize, overlap: usize)
    ensures
        ({
            let spans = chunk_spans(s, counts, size, overlap);
            &&& forall|k: int|
                0 <= k < spans.len() ==> 0 <= (#[trigger] spans[k]).0 < spans[k].1 <= s.len()
            &&& forall|j: int, k: int|
                0 <= j < k < spans.len() ==> (#[trigger] spans[j]).0 <= (#[trigger] spans[k]).0
                    && spans[j].1 < spans[k].1
        }),
{
    let units = text_units(s, counts, size);
    let inside = unit_spans(units);
    let ps = pack(units, 0, 0, size, overlap);
    let spans = chunk_spans(s, counts, size, overlap);
    lemma_text_units_inside(s, counts, size);
    lemma_pack_forward(units, 0, 0, size, overlap);
    assert forall|k: int| 0 <= k < spans.len() implies 0 <= (#[trigger] spans[k]).0 < spans[k].1
        <= s.len() by {
        assert(spans[k] == packed_span(units, ps[k]));
        assert(inside[ps[k].0].0 == units[ps[k].0].start);
        assert(inside[ps[k].1 - 1].1 == units[ps[k].1 - 1].end);
    }
    assert forall|j: int, k: int| 0 <= j < k < spans.len() implies (#[trigger] spans[j]).0
        <= (#[trigger] spans[k]).0 && spans[j].1 < spans[k].1 by {
        assert(spans[j] == packed_span(units, ps[j]));
        assert(spans[k] == packed_span(units, ps[k]));
        assert(inside[ps[j].0].0 == units[ps[j].0].start);
        assert(inside[ps[k].0].0 == units[ps[k].0].start);
        assert(inside[ps[j].1 - 1].1 == units[ps[j].1 - 1].end);
        assert(inside[ps[k].1 - 1].1 == units[ps[k].1 - 1].end);
        assert(inside[ps[k].1 - 1].0 < inside[ps[k].1 - 1].1);
    }
}

/// Chunking loses nothing: every character that is not whitespace lies in some
/// chunk.
pub proof fn law_chunks_cover_text(
    s: Seq<char>,
    counts: Counts,
    size: usize,
    overlap: usize,
    i: int,
)
    requires
        0 <= i < s.len(),
        !text::is_ws(s[i]),
    ensures
        covers(chunk_spans(s, counts, size, overlap), i),
{
    let units = text_units(s, counts, size);
    let inside = unit_spans(units);
    let ps = pack(units, 0, 0, size, overlap);
    let spans = chunk_spans(s, counts, size, overlap);
    lemma_paragraphs_inside(s, 0);
    lemma_paragraphs_cover(s, 0, i);
    lemma_sentences_cover(s, paragraph_spans(s, 0), s.len() as int, i);
    lemma_text_sentences_inside(s);
    lemma_sentences_units_cover(s, text_sentences(s), counts, size, s.len() as int, i);
    lemma_text_units_inside(s, counts, size);
    lemma_pack_forward(units, 0, 0, size, overlap);
    let m = choose|m: int| 0 <= m < inside.len() && (#[trigger] inside[m]).0 <= i < inside[m].1;
    assert(covers(ps, m));
    let k = choose|k: int| 0 <= k < ps.len() && (#[trigger] ps[k]).0 <= m < ps[k].1;
    assert(spans[k] == packed_span(units, ps[k]));
    assert(inside[ps[k].0].0 == units[ps[k].0].start);
    assert(inside[ps[k].1 - 1].1 == units[ps[k].1 - 1].end);
    assert(inside[ps[k].0].0 < inside[ps[k].0].1);
    assert(inside[ps[k].1 - 1].0 < inside[ps[k].1 - 1].1);
}

/// The units of a chunk have no more tokens together than the chunk size (or
/// one, for a size of zero).
pub proof fn law_chunks_stay_small(s: Seq<char>, counts: Counts, size: usize, overlap: usize)
    ensures
        packed_limited(
            text_units(s, counts, size),
            pack(text_units(s, counts, size), 0, 0, size, overlap),
            unit_limit(size) as int,
        ),
{
    lemma_sentences_units_limited(s, text_sentences(s), counts, size);
    lemma_pack_limited(text_units(s, counts, size), 0, 0, size, overlap);
}

/// A text without anything but whitespace has no chunks.
pub proof fn law_blank_has_no_chunks(s: Seq<char>, counts: Counts, size: usize, overlap: usize)
    requires
        text::blank(s),
    ensures
        chunk_spans(s, counts, size, overlap) == Seq::<(int, int)>::empty(),
{
    lemma_blank_paragraphs(s, 0);
    assert(chunk_spans(s, counts, size, overlap) =~= Seq::empty());
}

proof fn lemma_blank_paragraphs(s: Seq<char>, from: int)
    requires
        text::blank(s),
        0 <= from <= s.len(),
    ensures
        paragraph_spans(s, from) == Seq::<(int, int)>::empty(),
    decreases s.len() - from,
{
    lemma_next_break(s, from);
    let end = next_break(s, from);
    assert forall|k: int| 0 <= k < s.subrange(from, end).len() implies text::is_ws(
        #[trigger] s.subrange(from, end)[k],
    ) by {
        assert(s.subrange(from, end)[k] == s[from + k]);
    }
    if breaks_at(s, end) {
        lemma_blank_paragraphs(s, end + 3);
        assert(paragraph_spans(s, from) =~= Seq::empty());
    }
}

/// Where the unit `i` ends the chunk `a..i`, the next chunk starts with as much
/// of it as the overlap and the chunk size allow: the units from `b` on have no
/// more than `overlap` tokens, fit into one chunk with the unit `i`, and with one
/// unit more in front would have too many for one or the other.
pub proof fn law_overlap_is_largest(
    units: Seq<UnitModel>,
    a: int,
    i: int,
    size: usize,
    overlap: usize,
)
    requires
        0 <= a < i < units.len(),
        token_sum(units, a, i) + units[i].tokens > size,
    ensures
        ({
            let b = overlap_from(units, a, i, i, overlap_room(units[i].tokens, size, overlap));
            &&& pack(units, a, i, size, overlap) == seq![(a, i)] + pack(
                units,
                b,
                i + 1,
                size,
                overlap,
            )
            &&& a <= b <= i
            &&& token_sum(units, b, i) <= overlap
            &&& units[i].tokens <= size ==> token_sum(units, b, i + 1) <= size
            &&& a < b ==> token_sum(units, b - 1, i) > overlap || token_sum(units, b - 1, i + 1)
                > size
        }),
{
    let room = overlap_room(units[i].tokens, size, overlap);
    let b = overlap_from(units, a, i, i, room);
    lemma_overlap_from(units, a, i, i, room);
    assert(token_sum(units, b, i + 1) == token_sum(units, b, i) + units[i].tokens);
    if a < b {
        assert(token_sum(units, b - 1, i + 1) == token_sum(units, b - 1, i) + units[i].tokens);
    }
}

// ---- chunking ----

fn push_unit(units: &mut Vec<Unit>, start: usize, end: usize, tokens: usize)
    ensures
        unit_views(final(units)@) == unit_views(old(units)@).push(
            (UnitModel { start: start as int, end: end as int, tokens: tokens as nat }),
        ),
{
    units.push(Unit { start, end, tokens });
    assert(unit_views(units@) =~= unit_views(old(units)@).push(
        UnitModel { start: start as int, end: end as int, tokens: tokens as nat },
    ));
}

fn push_chars(units: &mut Vec<Unit>, lo: usize, hi: usize)
    requires
        lo <= hi,
    ensures
        unit_views(final(units)@) == unit_views(old(units)@) + char_units(lo as int, hi as int),
{
    let ghost before = unit_views(units@);
    let mut i: usize = lo;
    assert(before + char_units(lo as int, lo as int) =~= before);
    while i < hi
        invariant
            lo <= i <= hi,
            unit_views(units@) == before + char_units(lo as int, i as int),
        decreases hi - i,
    {
        push_unit(units, i, i + 1, 1);
        assert((before + char_units(lo as int, i as int)).push(
            UnitModel { start: i as int, end: i + 1, tokens: 1 },
        ) =~= before + char_units(lo as int, i + 1));
        i += 1;
    }
}

fn push_words(units: &mut Vec<Unit>, words: &Vec<Span>, counts: &Vec<usize>, size: usize)
    requires
        counts@.len() == words@.len(),
        forall|k: int| 0 <= k < words@.len() ==> (#[trigger] words@[k]).start <= words@[k].end,
    ensures
        unit_views(final(units)@) == unit_views(old(units)@) + words_units(
            span_views(words@),
            counts@,
            size,
        ),
{
    let ghost before = unit_views(units@);
    let ghost all = span_views(words@);
    let mut k: usize = 0;
    assert(before + words_units(all.take(0), counts@, size) =~= before);
    while k < words.len()
        invariant
            k <= words@.len(),
            all == span_views(words@),
            counts@.len() == words@.len(),
            forall|k: int| 0 <= k < words@.len() ==> (#[trigger] words@[k]).start <= words@[k].end,
            unit_views(units@) == before + words_units(all.take(k as int), counts@, size),
        decreases words@.len() - k,
    {
        let w = words[k];
        let ghost now = unit_views(units@);
        let ghost one = word_units(w@, counts@[k as int], size);
        assert(all.take(k + 1).drop_last() =~= all.take(k as int));
        assert(all.take(k + 1).last() == w@);
        if counts[k] <= size {
            push_unit(units, w.start, w.end, counts[k]);
            assert(unit_views(units@) =~= now + one);
        } else {
            push_chars(units, w.start, w.end);
        }
        assert(before + words_units(all.take(k + 1), counts@, size) =~= now + one);
        k += 1;
    }
    assert(all.take(k as int) =~= all);
}

fn build_units(chars: &Vec<char>, sentences: &Vec<Span>, counts: &TokenCounts, size: usize) -> (r:
    Vec<Unit>)
    requires
        span_views(sentences@) == text_sentences(chars@),
        counts_cover(chars@, counts@, size),
    ensures
        unit_views(r@) == text_units(chars@, counts@, size),
{
    let mut units: Vec<Unit> = Vec::new();
    let ghost all = span_views(sentences@);
    let mut k: usize = 0;
    proof {
        lemma_text_sentences_inside(chars@);
        assert(unit_views(units@) =~= sentences_units(chars@, all.take(0), counts@, size));
    }
    while k < sentences.len()
        invariant
            k <= sentences@.len(),
            all == span_views(sentences@),
            all == text_sentences(chars@),
            spans_between(all, 0, chars@.len() as int),
            counts_cover(chars@, counts@, size),
            unit_views(units@) == sentences_units(chars@, all.take(k as int), counts@, size),
        decreases sentences@.len() - k,
    {
        let p = sentences[k];
        let ghost now = unit_views(units@);
        let ghost one = sentence_units(
            chars@,
            p@,
            counts@.sentences[k as int],
            counts@.words[k as int],
            size,
        );
        assert(all.take(k + 1).drop_last() =~= all.take(k as int));
        assert(all[k as int] == p@);
        let tokens: usize = counts.sentences[k];
        assert(counts@.sentences[k as int] == tokens);
        if tokens <= size {
            push_unit(&mut units, p.start, p.end, tokens);
            assert(unit_views(units@) =~= now + one);
        } else {
            let words = split_words(chars, p.start, p.end);
            proof {
                lemma_words_between(chars@, p.start as int, p.end as int);
                assert forall|j: int| 0 <= j < words@.len() implies (#[trigger] words@[j]).start
                    <= words@[j].end by {
                    assert(span_views(words@)[j] == words@[j]@);
                }
                assert(counts@.words[k as int] == counts.words@[k as int]@);
                assert(words@.len() == span_views(words@).len());
            }
            push_words(&mut units, &words, &counts.words[k], size);
        }
        k += 1;
    }
    assert(all.take(k as int) =~= all);
    units
}

proof fn lemma_token_sum_bound(units: Seq<UnitModel>, a: int, b: int, most: nat)
    requires
        0 <= a <= b <= units.len(),
        forall|k: int| 0 <= k < units.len() ==> (#[trigger] units[k]).tokens <= most,
    ensures
        token_sum(units, a, b) <= (b - a) * most,
    decreases b - a,
{
    if a < b {
        lemma_token_sum_bound(units, a, b - 1, most);
        assert((b - 1 - a) * most + most == (b - a) * most) by (nonlinear_arith);
    }
}

proof fn lemma_token_sum_split(units: Seq<UnitModel>, a: int, b: int, c: int)
    requires
        a <= b <= c,
    ensures
        token_sum(units, a, c) == token_sum(units, a, b) + token_sum(units, b, c),
    decreases c - b,
{
    if b < c {
        lemma_token_sum_split(units, a, b, c - 1);
    }
}

proof fn lemma_token_sum_fits(units: Seq<Unit>, a: int, b: int)
    requires
        0 <= a <= b <= units.len(),
        units.len() <= usize::MAX,
    ensures
        token_sum(unit_views(units), a, b) + usize::MAX <= u128::MAX,
{
    let u = unit_views(units);
    assert forall|k: int| 0 <= k < u.len() implies (#[trigger] u[k]).tokens <= usize::MAX by {
        assert(u[k] == units[k]@);
    }
    lemma_token_sum_bound(u, a, b, usize::MAX as nat);
    assert((b - a) * (usize::MAX as nat) <= (usize::MAX as nat) * (usize::MAX as nat))
        by (nonlinear_arith)
        requires
            0 <= a <= b <= usize::MAX,
    ;
    assert((usize::MAX as nat) * (usize::MAX as nat) + usize::MAX <= u128::MAX) by (nonlinear_arith)
        requires
            usize::MAX <= 0xffff_ffff_ffff_ffff,
    ;
}

proof fn lemma_overlap_from(units: Seq<UnitModel>, a: int, b: int, i: int, overlap: usize)
    requires
        a <= b <= i,
        token_sum(units, b, i) <= overlap,
    ensures
        a <= overlap_from(units, a, b, i, overlap) <= b,
        token_sum(units, overlap_from(units, a, b, i, overlap), i) <= overlap,
        a < overlap_from(units, a, b, i, overlap) ==> token_sum(
            units,
            overlap_from(units, a, b, i, overlap) - 1,
            i,
        ) > overlap,
    decreases b - a,
{
    if a < b && token_sum(units, b - 1, i) <= overlap {
        lemma_overlap_from(units, a, b - 1, i, overlap);
    }
}

/// Where the next chunk starts when the chunk `a..i` is done, and the tokens
/// from there up to `i`.
fn find_overlap(units: &Vec<Unit>, a: usize, i: usize, overlap: usize) -> (r: (usize, u128))
    requires
        a <= i <= units@.len(),
    ensures
        r.0 == overlap_from(unit_views(units@), a as int, i as int, i as int, overlap),
        r.1 == token_sum(unit_views(units@), r.0 as int, i as int),
        a <= r.0 <= i,
{
    let ghost u = unit_views(units@);
    let mut b: usize = i;
    let mut sum: u128 = 0;
    assert(units.len() == units@.len());
    while a < b
        invariant
            a <= b <= i <= units@.len(),
            units@.len() <= usize::MAX,
            u == unit_views(units@),
            sum == token_sum(u, b as int, i as int),
            overlap_from(u, a as int, b as int, i as int, overlap) == overlap_from(
                u,
                a as int,
                i as int,
                i as int,
                overlap,
            ),
        decreases b - a,
    {
        proof {
            lemma_token_sum_fits(units@, b as int, i as int);
            lemma_token_sum_split(u, b - 1, b as int, i as int);
            assert(token_sum(u, b - 1, b as int) == u[b - 1].tokens) by {
                reveal_with_fuel(token_sum, 2);
            }
            assert(u[b - 1] == units@[b - 1]@);
        }
        let next: u128 = sum + units[b - 1].tokens as u128;
        if next > overlap as u128 {
            return (b, sum);
        }
        sum = next;
        b -= 1;
    }
    (b, sum)
}

/// The tokens that a chunk may repeat in front of a unit of `tokens` tokens.
fn room_for(tokens: usize, size: usize, overlap: usize) -> (r: usize)
    ensures
        r == overlap_room(tokens as nat, size, overlap),
{
    if tokens > size {
        0
    } else if overlap > size - tokens {
        size - tokens
    } else {
        overlap
    }
}

/// The chunk that the units `a..b` make.
fn cut(text: &str, offsets: &Vec<usize>, units: &Vec<Unit>, a: usize, b: usize) -> (r:
    ChunkCandidate)
    requires
        a < b <= units@.len(),
        offsets@.len() == text@.len() + 1,
        forall|i: int|
            0 <= i <= text@.len() ==> (#[trigger] offsets@[i]) as nat == text::byte_offset(text@, i),
        spans_between(unit_spans(unit_views(units@)), 0, text@.len() as int),
    ensures
        is_part(r, text@, packed_span(unit_views(units@), (a as int, b as int))),
{
    let first = units[a];
    let last = units[b - 1];
    proof {
        let spans = unit_spans(unit_views(units@));
        assert(spans[a as int] == (first.start as int, first.end as int));
        assert(spans[b - 1] == (last.start as int, last.end as int));
        assert(unit_views(units@)[a as int] == first@);
        assert(unit_views(units@)[b - 1] == last@);
    }
    let start: usize = offsets[first.start];
    let end: usize = offsets[last.end];
    let part = text::slice(text, start, end, Ghost(first.start as int), Ghost(last.end as int));
    ChunkCandidate { text: part.to_string(), byte_range: start..end }
}

fn pack_units(
    text: &str,
    offsets: &Vec<usize>,
    units: &Vec<Unit>,
    chunk_size: usize,
    chunk_overlap: usize,
) -> (r: Vec<ChunkCandidate>)
    requires
        offsets@.len() == text@.len() + 1,
        forall|i: int|
            0 <= i <= text@.len() ==> (#[trigger] offsets@[i]) as nat == text::byte_offset(text@, i),
        spans_between(unit_spans(unit_views(units@)), 0, text@.len() as int),
    ensures
        are_parts(
            r@,
            text@,
            pack(unit_views(units@), 0, 0, chunk_size, chunk_overlap).map_values(
                |p: (int, int)| packed_span(unit_views(units@), p),
            ),
        ),
{
    let ghost u = unit_views(units@);
    let ghost all = pack(u, 0, 0, chunk_size, chunk_overlap);
    let ghost done: Seq<(int, int)> = Seq::empty();
    let mut chunks: Vec<ChunkCandidate> = Vec::new();
    let mut a: usize = 0;
    let mut i: usize = 0;
    let mut tokens: u128 = 0;
    assert(done + pack(u, 0, 0, chunk_size, chunk_overlap) =~= all);
    while i < units.len()
        invariant
            a <= i <= units@.len(),
            u == unit_views(units@),
            offsets@.len() == text@.len() + 1,
            forall|i: int|
                0 <= i <= text@.len() ==> (#[trigger] offsets@[i]) as nat == text::byte_offset(
                    text@,
                    i,
                ),
            spans_between(unit_spans(u), 0, text@.len() as int),
            tokens == token_sum(u, a as int, i as int),
            done + pack(u, a as int, i as int, chunk_size, chunk_overlap) =~= all,
            are_parts(chunks@, text@, done.map_values(|p: (int, int)| packed_span(u, p))),
        decreases units@.len() - i,
    {
        let unit = units[i];
        proof {
            lemma_token_sum_fits(units@, a as int, i as int);
            assert(u[i as int] == unit@);
        }
        if a < i && tokens + unit.tokens as u128 > chunk_size as u128 {
            let ghost before = chunks@;
            chunks.push(cut(text, offsets, units, a, i));
            let room: usize = room_for(unit.tokens, chunk_size, chunk_overlap);
            let (b, kept) = find_overlap(units, a, i, room);
            proof {
                let more = done.push((a as int, i as int));
                assert(more.map_values(|p: (int, int)| packed_span(u, p)) =~= done.map_values(
                    |p: (int, int)| packed_span(u, p),
                ).push(packed_span(u, (a as int, i as int))));
                assert(done + pack(u, a as int, i as int, chunk_size, chunk_overlap) =~= more + pack(
                    u,
                    b as int,
                    i + 1,
                    chunk_size,
                    chunk_overlap,
                ));
                done = more;
                lemma_token_sum_fits(units@, b as int, i as int);
            }
            a = b;
            tokens = kept;
        }
        tokens = tokens + unit.tokens as u128;
        i += 1;
    }
    if a < i {
        chunks.push(cut(text, offsets, units, a, i));
        proof {
            let more = done.push((a as int, i as int));
            assert(more.map_values(|p: (int, int)| packed_span(u, p)) =~= done.map_values(
                |p: (int, int)| packed_span(u, p),
            ).push(packed_span(u, (a as int, i as int))));
            assert(more =~= all);
        }
    } else {
        assert(done =~= all);
    }
    chunks
}

/// Whether `chunk` holds exactly the bytes of `s` in its byte range, and has at
/// least one.
pub open spec fn is_faithful(chunk: ChunkCandidate, s: Seq<char>) -> bool {
    let start = chunk.byte_range.start as int;
    let end = chunk.byte_range.end as int;
    &&& start < end <= text::byte_len(s)
    &&& vstd::utf8::encode_utf8(chunk.text@) == vstd::utf8::encode_utf8(s).subrange(start, end)
}

proof fn lemma_parts_are_faithful(
    chunks: Seq<ChunkCandidate>,
    s: Seq<char>,
    counts: Counts,
    size: usize,
    overlap: usize,
)
    requires
        are_parts(chunks, s, chunk_spans(s, counts, size, overlap)),
    ensures
        forall|k: int| 0 <= k < chunks.len() ==> is_faithful(#[trigger] chunks[k], s),
{
    let spans = chunk_spans(s, counts, size, overlap);
    law_chunks_move_forward(s, counts, size, overlap);
    assert forall|k: int| 0 <= k < chunks.len() implies is_faithful(#[trigger] chunks[k], s) by {
        let span = spans[k];
        assert(is_part(chunks[k], s, span));
        text::lemma_encode_subrange(s, span.0, span.1);
        text::lemma_offset_monotone(s, span.0, span.1);
    }
}

/// Splits `text` into chunks, given the token counts of its sentences and of
/// the words of its long sentences.
pub fn chunk_counted(text: &str, counts: &TokenCounts, chunk_size: usize, chunk_overlap: usize) -> (r:
    Vec<ChunkCandidate>)
    requires
        counts_cover(text@, counts@, chunk_size),
    ensures
        are_parts(r@, text@, chunk_spans(text@, counts@, chunk_size, chunk_overlap)),
        forall|k: int| 0 <= k < r@.len() ==> is_faithful(#[trigger] r@[k], text@),
{
    let chars = text::chars_of(text);
    let sentences = split_text(&chars);
    let offsets = text::byte_offsets(text, &chars);
    let units = build_units(&chars, &sentences, counts, chunk_size);
    proof {
        lemma_text_units_inside(text@, counts@, chunk_size);
    }
    let chunks = pack_units(text, &offsets, &units, chunk_size, chunk_overlap);
    proof {
        lemma_parts_are_faithful(chunks@, text@, counts@, chunk_size, chunk_overlap);
    }
    chunks
}

// ---- counting tokens ----

/// Splits documents at sentence ends into chunks of at most `chunk_size` tokens.
pub struct SentenceSplitter {
    tokenizer: Tokenizer,
    usable: bool,
    chunk_size: usize,
    chunk_overlap: usize,
}

impl SentenceSplitter {
    pub closed spec fn size(&self) -> usize {
        self.chunk_size
    }

    pub closed spec fn overlap(&self) -> usize {
        self.chunk_overlap
    }

    pub closed spec fn tokenizer(&self) -> Tokenizer {
        self.tokenizer
    }

    pub fn new(tokenizer: Tokenizer, chunk_size: usize, chunk_overlap: usize) -> (r: Self)
        ensures
            r.tokenizer() == tokenizer,
            r.size() == chunk_size,
            r.overlap() == chunk_overlap,
    {
        let usable: bool = tokens::check_setup(&tokenizer);
        SentenceSplitter { tokenizer, usable, chunk_size, chunk_overlap }
    }

    /// Whether the setup of the tokenizer was looked through, and `usable` says
    /// whether it is known to work on every text.
    #[verifier::type_invariant]
    spec fn is_looked_through(self) -> bool {
        tokens::is_checked(&self.tokenizer, self.usable)
    }

    /// Whether `n` may be the number of tokens of a text: what the tokenizer
    /// gave for it, or its number of characters where the tokenizer failed or
    /// is not known to work on every text.
    pub closed spec fn counted(&self, s: Seq<char>, n: usize) -> bool {
        ||| self.encoded(s, n)
        ||| tokens::is_checked(&self.tokenizer, false) && n == s.len()
    }

    /// Whether the tokenizer was asked for the tokens of a text and `n` follows
    /// from its answer.
    spec fn encoded(&self, s: Seq<char>, n: usize) -> bool {
        exists|t: &str, r: Option<usize>|
            #![trigger call_ensures(tokens::encoded_len, (&self.tokenizer, t), r)]
            t@ == s && call_ensures(tokens::encoded_len, (&self.tokenizer, t), r) && n == match r {
                Some(tokens) => tokens as nat,
                None => s.len(),
            }
    }

    /// Whether the counts are those of the sentences of a text, and of the words
    /// of its long sentences.
    pub open spec fn are_counts(&self, s: Seq<char>, counts: Counts) -> bool {
        let sentences = text_sentences(s);
        &&& counts_cover(s, counts, self.size())
        &&& forall|k: int|
            0 <= k < sentences.len() ==> self.counted(
                s.subrange(sentences[k].0, sentences[k].1),
                #[trigger] counts.sentences[k],
            )
        &&& forall|k: int|
            0 <= k < sentences.len() && (#[trigger] counts.sentences[k]) > self.size()
                ==> self.are_word_counts(s, sentences[k], counts.words[k])
    }

    /// Whether the counts are those of the words of a sentence.
    pub open spec fn are_word_counts(
        &self,
        s: Seq<char>,
        sentence: (int, int),
        counts: Seq<usize>,
    ) -> bool {
        let words = word_spans(s, sentence.0, sentence.1);
        &&& counts.len() == words.len()
        &&& forall|j: int|
            0 <= j < words.len() ==> self.counted(
                s.subrange(words[j].0, words[j].1),
                #[trigger] counts[j],
            )
    }

    /// The tokens of `text`, or its characters where the tokenizer fails or is
    /// not known to work on every text.
    fn token_count(&self, text: &str) -> (n: usize)
        ensures
            self.counted(text@, n),
    {
        proof {
            use_type_invariant(self);
        }
        if !self.usable {
            return text.unicode_len();
        }
        match tokens::encoded_len(&self.tokenizer, text) {
            Some(n) => n,
            None => text.unicode_len(),
        }
    }

    /// Counts the tokens of each sentence of `text`, and of each word of the
    /// sentences that are too long for a chunk.
    fn count(&self, text: &str) -> (r: TokenCounts)
        ensures
            self.are_counts(text@, r@),
    {
        let chars = text::chars_of(text);
        let offsets = text::byte_offsets(text, &chars);
        let sentences = split_text(&chars);
        let mut counts: Vec<usize> = Vec::new();
        let mut words: Vec<Vec<usize>> = Vec::new();
        let ghost all = text_sentences(text@);
        proof {
            lemma_text_sentences_inside(text@);
        }
        let mut k: usize = 0;
        while k < sentences.len()
            invariant
                k <= sentences@.len(),
                chars@ == text@,
                all == text_sentences(text@),
                span_views(sentences@) == all,
                spans_between(all, 0, text@.len() as int),
                offsets@.len() == text@.len() + 1,
                forall|i: int|
                    0 <= i <= text@.len() ==> (#[trigger] offsets@[i]) as nat == text::byte_offset(
                        text@,
                        i,
                    ),
                counts@.len() == k,
                words@.len() == k,
                forall|j: int|
                    0 <= j < k ==> self.counted(
                        text@.subrange(all[j].0, all[j].1),
                        #[trigger] counts@[j],
                    ),
                forall|j: int|
                    0 <= j < k && (#[trigger] counts@[j]) > self.size() ==> self.are_word_counts(
                        text@,
                        all[j],
                        words@[j]@,
                    ),
            decreases sentences@.len() - k,
        {
            let p = sentences[k];
            assert(all[k as int] == p@);
            let part = text::slice(
                text,
                offsets[p.start],
                offsets[p.end],
                Ghost(p.start as int),
                Ghost(p.end as int),
            );
            let tokens: usize = self.token_count(part);
            let mut inner: Vec<usize> = Vec::new();
            if tokens > self.chunk_size {
                let spans = split_words(&chars, p.start, p.end);
                proof {
                    lemma_words_between(text@, p.start as int, p.end as int);
                }
                let mut j: usize = 0;
                while j < spans.len()
                    invariant
                        j <= spans@.len(),
                        inner@.len() == j,
                        forall|i: int|
                            0 <= i < j ==> self.counted(
                                text@.subrange(span_views(spans@)[i].0, span_views(spans@)[i].1),
                                #[trigger] inner@[i],
                            ),
                        span_views(spans@) == word_spans(text@, p.start as int, p.end as int),
                        p.end <= text@.len(),
                        spans_between(span_views(spans@), p.start as int, p.end as int),
                        offsets@.len() == text@.len() + 1,
                        forall|i: int|
                            0 <= i <= text@.len() ==> (#[trigger] offsets@[i]) as nat
                                == text::byte_offset(text@, i),
                    decreases spans@.len() - j,
                {
                    let w = spans[j];
                    assert(span_views(spans@)[j as int] == w@);
                    let word = text::slice(
                        text,
                        offsets[w.start],
                        offsets[w.end],
                        Ghost(w.start as int),
                        Ghost(w.end as int),
                    );
                    inner.push(self.token_count(word));
                    j += 1;
                }
                assert(span_views(spans@).len() == spans@.len());
            }
            counts.push(tokens);
            words.push(inner);
            k += 1;
        }
        let r = TokenCounts { sentences: counts, words };
        assert(span_views(sentences@).len() == sentences@.len());
        assert forall|j: int| 0 <= j < all.len() implies self.counted(
            text@.subrange(all[j].0, all[j].1),
            #[trigger] r@.sentences[j],
        ) by {
            assert(r@.sentences[j] == counts@[j]);
        }
        assert forall|j: int| 0 <= j < all.len() && (#[trigger] r@.sentences[j]) > self.size() implies self.are_word_counts(
            text@,
            all[j],
            r@.words[j],
        ) by {
            assert(r@.sentences[j] == counts@[j]);
            assert(r@.words[j] == words@[j]@);
        }
        r
    }
}

impl Chunker for SentenceSplitter {
    /// The chunks of `text` for the counts that the tokenizer gives. The units of
    /// a chunk have no more tokens together than the chunk size.
    fn chunk(&self, text: &str) -> (r: Vec<ChunkCandidate>)
        ensures
            exists|counts: Counts|
                #![trigger self.are_counts(text@, counts)]
                self.are_counts(text@, counts) && are_parts(
                    r@,
                    text@,
                    chunk_spans(text@, counts, self.size(), self.overlap()),
                ) && packed_limited(
                    text_units(text@, counts, self.size()),
                    pack(
                        text_units(text@, counts, self.size()),
                        0,
                        0,
                        self.size(),
                        self.overlap(),
                    ),
                    unit_limit(self.size()) as int,
                ),
            forall|k: int| 0 <= k < r@.len() ==> is_faithful(#[trigger] r@[k], text@),
            text::blank(text@) ==> r@.len() == 0,
    {
        let counts = self.count(text);
        proof {
            law_chunks_stay_small(text@, counts@, self.chunk_size, self.chunk_overlap);
            if text::blank(text@) {
                law_blank_has_no_chunks(text@, counts@, self.chunk_size, self.chunk_overlap);
            }
        }
        chunk_counted(text, &counts, self.chunk_size, self.chunk_overlap)
    }
}

// ---- what a sentence and a word are ----

/// Whether `a..b` reaches from one border to the next: a border stands at
/// either end of the text, behind a sentence end, and around three newlines.
pub open spec fn reaches(s: Seq<char>, a: int, b: int) -> bool {
    &&& 0 <= a < b <= s.len()
    &&& forall|k: int| a <= k < b - 1 ==> !ends_sentence(#[trigger] s[k])
    &&& forall|k: int| a <= k < b ==> !breaks_at(s, k)
    &&& b == s.len() || ends_sentence(s[b - 1]) || breaks_at(s, b)
    &&& a == 0 || ends_sentence(s[a - 1]) || breaks_at(s, a - 3)
    &&& !text::blank(s.subrange(a, b))
}

/// Whether `a..b` is a stretch between two runs of three newlines.
pub open spec fn stretches(s: Seq<char>, a: int, b: int) -> bool {
    &&& 0 <= a < b <= s.len()
    &&& forall|k: int| a <= k < b ==> !breaks_at(s, k)
    &&& b == s.len() || breaks_at(s, b)
    &&& a == 0 || breaks_at(s, a - 3)
}

proof fn lemma_first_stop(s: Seq<char>, from: int, hi: int)
    requires
        0 <= from <= hi <= s.len(),
    ensures
        forall|k: int| from <= k < next_stop(s, from, hi) ==> !ends_sentence(#[trigger] s[k]),
    decreases hi - from,
{
    if from < hi && !ends_sentence(s[from]) {
        lemma_first_stop(s, from + 1, hi);
    }
}

proof fn lemma_paragraphs_stretch(s: Seq<char>, from: int)
    requires
        0 <= from <= s.len(),
        from == 0 || breaks_at(s, from - 3),
    ensures
        forall|k: int|
            0 <= k < paragraph_spans(s, from).len() ==> stretches(
                s,
                (#[trigger] paragraph_spans(s, from)[k]).0,
                paragraph_spans(s, from)[k].1,
            ),
    decreases s.len() - from,
{
    lemma_next_break(s, from);
    let end = next_break(s, from);
    let first = nonblank_span(s, from, end);
    lemma_nonblank_between(s, from, end);
    if breaks_at(s, end) {
        let rest = paragraph_spans(s, end + 3);
        lemma_paragraphs_stretch(s, end + 3);
        assert forall|k: int| 0 <= k < (first + rest).len() implies stretches(
            s,
            (#[trigger] (first + rest)[k]).0,
            (first + rest)[k].1,
        ) by {
            if k < first.len() {
                assert((first + rest)[k] == first[k]);
            } else {
                assert((first + rest)[k] == rest[k - first.len()]);
            }
        }
    }
}

proof fn lemma_sentences_reach(s: Seq<char>, lo: int, hi: int)
    requires
        0 <= lo <= hi <= s.len(),
        lo == 0 || ends_sentence(s[lo - 1]) || breaks_at(s, lo - 3),
        hi == s.len() || breaks_at(s, hi),
        forall|k: int| lo <= k < hi ==> !breaks_at(s, k),
    ensures
        forall|k: int|
            0 <= k < sentence_spans(s, lo, hi).len() ==> reaches(
                s,
                (#[trigger] sentence_spans(s, lo, hi)[k]).0,
                sentence_spans(s, lo, hi)[k].1,
            ),
    decreases hi - lo,
{
    lemma_next_stop(s, lo, hi);
    lemma_first_stop(s, lo, hi);
    let stop = next_stop(s, lo, hi);
    if lo < hi {
        if stop < hi {
            let first = nonblank_span(s, lo, stop + 1);
            let rest = sentence_spans(s, stop + 1, hi);
            lemma_sentences_reach(s, stop + 1, hi);
            assert forall|k: int| 0 <= k < (first + rest).len() implies reaches(
                s,
                (#[trigger] (first + rest)[k]).0,
                (first + rest)[k].1,
            ) by {
                if k < first.len() {
                    assert((first + rest)[k] == first[k]);
                } else {
                    assert((first + rest)[k] == rest[k - first.len()]);
                }
            }
        }
    }
}

proof fn lemma_all_sentences_reach(s: Seq<char>, paragraphs: Seq<(int, int)>)
    requires
        forall|k: int|
            0 <= k < paragraphs.len() ==> stretches(
                s,
                (#[trigger] paragraphs[k]).0,
                paragraphs[k].1,
            ),
    ensures
        forall|k: int|
            0 <= k < sentences_of(s, paragraphs).len() ==> reaches(
                s,
                (#[trigger] sentences_of(s, paragraphs)[k]).0,
                sentences_of(s, paragraphs)[k].1,
            ),
    decreases paragraphs.len(),
{
    if paragraphs.len() > 0 {
        let front = paragraphs.drop_last();
        let last = paragraphs.last();
        assert(last == paragraphs[paragraphs.len() - 1]);
        assert forall|k: int| 0 <= k < front.len() implies stretches(
            s,
            (#[trigger] front[k]).0,
            front[k].1,
        ) by {
            assert(front[k] == paragraphs[k]);
        }
        lemma_all_sentences_reach(s, front);
        lemma_sentences_reach(s, last.0, last.1);
        let a = sentences_of(s, front);
        let b = sentence_spans(s, last.0, last.1);
        assert forall|k: int| 0 <= k < (a + b).len() implies reaches(
            s,
            (#[trigger] (a + b)[k]).0,
            (a + b)[k].1,
        ) by {
            if k < a.len() {
                assert((a + b)[k] == a[k]);
            } else {
                assert((a + b)[k] == b[k - a.len()]);
            }
        }
    }
}

/// A sentence ends behind a full stop, an exclamation mark or a question mark,
/// each in its Latin or its Chinese form, or before three newlines, or with the
/// text; it begins where one may end. None of these marks stands inside of it,
/// nor do three newlines, and it is not blank.
pub proof fn law_sentences_end_at_stops(s: Seq<char>, p: int)
    requires
        0 <= p < text_sentences(s).len(),
    ensures
        0 <= text_sentences(s)[p].0 < text_sentences(s)[p].1 <= s.len(),
        forall|k: int|
            text_sentences(s)[p].0 <= k < text_sentences(s)[p].1 - 1 ==> (#[trigger] s[k]) != '.'
                && s[k] != '!' && s[k] != '?' && s[k] != '\u{3002}' && s[k] != '\u{ff01}' && s[k]
                != '\u{ff1f}',
        forall|k: int|
            text_sentences(s)[p].0 <= k < text_sentences(s)[p].1 && k + 3 <= s.len()
                ==> #[trigger] s.subrange(k, k + 3) != seq!['\n', '\n', '\n'],
        ({
            let b = text_sentences(s)[p].1;
            ||| b == s.len()
            ||| s[b - 1] == '.'
            ||| s[b - 1] == '!'
            ||| s[b - 1] == '?'
            ||| s[b - 1] == '\u{3002}'
            ||| s[b - 1] == '\u{ff01}'
            ||| s[b - 1] == '\u{ff1f}'
            ||| b + 3 <= s.len() && s.subrange(b, b + 3) == seq!['\n', '\n', '\n']
        }),
        ({
            let a = text_sentences(s)[p].0;
            ||| a == 0
            ||| s[a - 1] == '.'
            ||| s[a - 1] == '!'
            ||| s[a - 1] == '?'
            ||| s[a - 1] == '\u{3002}'
            ||| s[a - 1] == '\u{ff01}'
            ||| s[a - 1] == '\u{ff1f}'
            ||| a >= 3 && s.subrange(a - 3, a) == seq!['\n', '\n', '\n']
        }),
        exists|k: int|
            text_sentences(s)[p].0 <= k < text_sentences(s)[p].1 && !text::is_ws(#[trigger] s[k]),
{
    lemma_paragraphs_stretch(s, 0);
    lemma_all_sentences_reach(s, paragraph_spans(s, 0));
    let a = text_sentences(s)[p].0;
    let b = text_sentences(s)[p].1;
    assert(reaches(s, a, b));
    assert forall|k: int| a <= k < b && k + 3 <= s.len() implies #[trigger] s.subrange(k, k + 3)
        != seq!['\n', '\n', '\n'] by {
        let three = s.subrange(k, k + 3);
        assert(!breaks_at(s, k));
        assert(three[0] == s[k] && three[1] == s[k + 1] && three[2] == s[k + 2]);
    }
    if breaks_at(s, b) {
        assert(s.subrange(b, b + 3) =~= seq!['\n', '\n', '\n']);
    }
    if breaks_at(s, a - 3) {
        assert(s.subrange(a - 3, a) =~= seq!['\n', '\n', '\n']);
    }
    let part = s.subrange(a, b);
    let k = choose|k: int| 0 <= k < part.len() && !text::is_ws(#[trigger] part[k]);
    assert(part[k] == s[a + k]);
}

/// The sentences of a text follow one another and leave nothing out but
/// whitespace.
pub proof fn law_sentences_hold_the_text(s: Seq<char>)
    ensures
        forall|j: int, k: int|
            0 <= j < k < text_sentences(s).len() ==> (#[trigger] text_sentences(s)[j]).1 <= (
            #[trigger] text_sentences(s)[k]).0,
        forall|i: int|
            0 <= i < s.len() && !text::is_ws(#[trigger] s[i]) ==> exists|k: int|
                0 <= k < text_sentences(s).len() && (#[trigger] text_sentences(s)[k]).0 <= i
                    < text_sentences(s)[k].1,
{
    lemma_text_sentences_inside(s);
    assert forall|i: int| 0 <= i < s.len() && !text::is_ws(#[trigger] s[i]) implies exists|k: int|
        0 <= k < text_sentences(s).len() && (#[trigger] text_sentences(s)[k]).0 <= i
            < text_sentences(s)[k].1 by {
        lemma_paragraphs_inside(s, 0);
        lemma_paragraphs_cover(s, 0, i);
        lemma_sentences_cover(s, paragraph_spans(s, 0), s.len() as int, i);
        assert(covers(text_sentences(s), i));
    }
}

proof fn lemma_words_are_whole(s: Seq<char>, lo: int, hi: int)
    requires
        0 <= lo <= hi <= s.len(),
    ensures
        forall|p: int, k: int|
            0 <= p < word_spans(s, lo, hi).len() && (#[trigger] word_spans(s, lo, hi)[p]).0 <= k
                < word_spans(s, lo, hi)[p].1 ==> !text::is_ws(#[trigger] s[k]),
        forall|p: int|
            0 <= p < word_spans(s, lo, hi).len() ==> {
                let w = #[trigger] word_spans(s, lo, hi)[p];
                &&& lo <= w.0 < w.1 <= hi
                &&& w.1 == hi || text::is_ws(s[w.1])
                &&& w.0 == lo || text::is_ws(s[w.0 - 1])
            },
    decreases hi - lo,
{
    lemma_next_ws(s, lo, hi, false);
    let a = next_ws(s, lo, hi, false);
    lemma_next_ws(s, a, hi, true);
    let b = next_ws(s, a, hi, true);
    if lo <= a < b <= hi {
        let one = seq![(a, b)];
        let rest = word_spans(s, b, hi);
        lemma_words_are_whole(s, b, hi);
        assert(word_spans(s, lo, hi) == one + rest);
        assert forall|p: int, k: int|
            0 <= p < (one + rest).len() && (#[trigger] (one + rest)[p]).0 <= k < (one
                + rest)[p].1 implies !text::is_ws(#[trigger] s[k]) by {
            if p > 0 {
                assert((one + rest)[p] == rest[p - 1]);
            } else {
                assert((one + rest)[p] == (a, b));
            }
        }
        assert forall|p: int| 0 <= p < (one + rest).len() implies {
            let w = #[trigger] (one + rest)[p];
            &&& lo <= w.0 < w.1 <= hi
            &&& w.1 == hi || text::is_ws(s[w.1])
            &&& w.0 == lo || text::is_ws(s[w.0 - 1])
        } by {
            if p > 0 {
                let w = rest[p - 1];
                assert((one + rest)[p] == w);
                if w.0 == b {
                    assert(w.0 < hi && text::is_ws(s[b]));
                    assert(rest[p - 1].0 <= b < rest[p - 1].1);
                }
            } else {
                assert((one + rest)[p] == (a, b));
                if a > lo {
                    assert(text::is_ws(s[a - 1]));
                }
            }
        }
    }
}

/// The words of a stretch are its longest pieces without whitespace, in order,
/// and leave nothing out but whitespace.
pub proof fn law_words_are_whole(s: Seq<char>, lo: int, hi: int)
    requires
        0 <= lo <= hi <= s.len(),
    ensures
        forall|p: int, k: int|
            0 <= p < word_spans(s, lo, hi).len() && (#[trigger] word_spans(s, lo, hi)[p]).0 <= k
                < word_spans(s, lo, hi)[p].1 ==> !text::is_ws(#[trigger] s[k]),
        forall|p: int|
            0 <= p < word_spans(s, lo, hi).len() ==> {
                let w = #[trigger] word_spans(s, lo, hi)[p];
                &&& lo <= w.0 < w.1 <= hi
                &&& w.1 == hi || text::is_ws(s[w.1])
                &&& w.0 == lo || text::is_ws(s[w.0 - 1])
            },
        forall|j: int, k: int|
            0 <= j < k < word_spans(s, lo, hi).len() ==> (#[trigger] word_spans(s, lo, hi)[j]).1
                <= (#[trigger] word_spans(s, lo, hi)[k]).0,
        forall|i: int|
            lo <= i < hi && !text::is_ws(#[trigger] s[i]) ==> exists|p: int|
                0 <= p < word_spans(s, lo, hi).len() && (#[trigger] word_spans(s, lo, hi)[p]).0
                    <= i < word_spans(s, lo, hi)[p].1,
{
    lemma_words_are_whole(s, lo, hi);
    lemma_words_between(s, lo, hi);
    assert forall|i: int| lo <= i < hi && !text::is_ws(#[trigger] s[i]) implies exists|p: int|
        0 <= p < word_spans(s, lo, hi).len() && (#[trigger] word_spans(s, lo, hi)[p]).0 <= i
            < word_spans(s, lo, hi)[p].1 by {
        lemma_word_spans_cover(s, lo, hi, i);
        assert(covers(word_spans(s, lo, hi), i));
    }
}

// ---- what a unit is, and what a chunk takes in ----

proof fn lemma_word_of_unit(words: Seq<(int, int)>, counts: Seq<usize>, size: usize, m: int) -> (w:
    int)
    requires
        0 <= m < words_units(words, counts, size).len(),
    ensures
        0 <= w < words.len(),
        ({
            let u = words_units(words, counts, size)[m];
            if counts[w] <= size {
                u == UnitModel { start: words[w].0, end: words[w].1, tokens: counts[w] as nat }
            } else {
                words[w].0 <= u.start < words[w].1 && u.end == u.start + 1 && u.tokens == 1
            }
        }),
    decreases words.len(),
{
    let front = words_units(words.drop_last(), counts, size);
    let back = word_units(words.last(), counts[words.len() - 1], size);
    if m < front.len() {
        let w = lemma_word_of_unit(words.drop_last(), counts, size, m);
        assert(words.drop_last()[w] == words[w]);
        assert((front + back)[m] == front[m]);
        w
    } else {
        assert((front + back)[m] == back[m - front.len()]);
        words.len() - 1
    }
}

proof fn lemma_sentence_of_unit(
    s: Seq<char>,
    sentences: Seq<(int, int)>,
    counts: Counts,
    size: usize,
    m: int,
) -> (at: (int, int))
    requires
        0 <= m < sentences_units(s, sentences, counts, size).len(),
    ensures
        0 <= at.0 < sentences.len(),
        ({
            let u = sentences_units(s, sentences, counts, size)[m];
            let p = sentences[at.0];
            let words = word_spans(s, p.0, p.1);
            if counts.sentences[at.0] <= size {
                u == UnitModel { start: p.0, end: p.1, tokens: counts.sentences[at.0] as nat }
            } else {
                &&& 0 <= at.1 < words.len()
                &&& if counts.words[at.0][at.1] <= size {
                    u == UnitModel {
                        start: words[at.1].0,
                        end: words[at.1].1,
                        tokens: counts.words[at.0][at.1] as nat,
                    }
                } else {
                    words[at.1].0 <= u.start < words[at.1].1 && u.end == u.start + 1 && u.tokens
                        == 1
                }
            }
        }),
    decreases sentences.len(),
{
    let k = sentences.len() - 1;
    let front = sentences_units(s, sentences.drop_last(), counts, size);
    let back = sentence_units(s, sentences[k], counts.sentences[k], counts.words[k], size);
    if m < front.len() {
        let at = lemma_sentence_of_unit(s, sentences.drop_last(), counts, size, m);
        assert(sentences.drop_last()[at.0] == sentences[at.0]);
        assert((front + back)[m] == front[m]);
        at
    } else {
        assert((front + back)[m] == back[m - front.len()]);
        if counts.sentences[k] <= size {
            (k, 0)
        } else {
            let words = word_spans(s, sentences[k].0, sentences[k].1);
            let w = lemma_word_of_unit(words, counts.words[k], size, m - front.len());
            (k, w)
        }
    }
}

/// A sentence that fits into a chunk is one unit, with its own token count. Of a
/// longer one each word that fits is a unit, with its own count, and each
/// character of a word that does not is a unit of one token. The result names
/// the sentence, and its word, that the unit `m` comes from.
pub proof fn law_units_are_the_largest_that_fit(
    s: Seq<char>,
    counts: Counts,
    size: usize,
    m: int,
) -> (at: (int, int))
    requires
        0 <= m < text_units(s, counts, size).len(),
    ensures
        0 <= at.0 < text_sentences(s).len(),
        ({
            let u = text_units(s, counts, size)[m];
            let p = text_sentences(s)[at.0];
            let words = word_spans(s, p.0, p.1);
            if counts.sentences[at.0] <= size {
                u.start == p.0 && u.end == p.1 && u.tokens == counts.sentences[at.0]
            } else {
                &&& 0 <= at.1 < words.len()
                &&& if counts.words[at.0][at.1] <= size {
                    &&& u.start == words[at.1].0
                    &&& u.end == words[at.1].1
                    &&& u.tokens == counts.words[at.0][at.1]
                } else {
                    &&& words[at.1].0 <= u.start < words[at.1].1
                    &&& u.end == u.start + 1
                    &&& u.tokens == 1
                }
            }
        }),
{
    lemma_sentence_of_unit(s, text_sentences(s), counts, size, m)
}

/// The units of a text follow one another and leave nothing out but whitespace.
pub proof fn law_units_hold_the_text(s: Seq<char>, counts: Counts, size: usize)
    ensures
        forall|j: int, k: int|
            0 <= j < k < text_units(s, counts, size).len() ==> (#[trigger] text_units(
                s,
                counts,
                size,
            )[j]).end <= (#[trigger] text_units(s, counts, size)[k]).start,
        forall|i: int|
            0 <= i < s.len() && !text::is_ws(#[trigger] s[i]) ==> exists|k: int|
                0 <= k < text_units(s, counts, size).len() && (#[trigger] text_units(
                    s,
                    counts,
                    size,
                )[k]).start <= i < text_units(s, counts, size)[k].end,
{
    let units = text_units(s, counts, size);
    let inside = unit_spans(units);
    lemma_text_units_inside(s, counts, size);
    assert forall|j: int, k: int| 0 <= j < k < units.len() implies (#[trigger] units[j]).end <= (
    #[trigger] units[k]).start by {
        assert(inside[j].1 <= inside[k].0);
    }
    assert forall|i: int| 0 <= i < s.len() && !text::is_ws(#[trigger] s[i]) implies exists|k: int|
        0 <= k < units.len() && (#[trigger] units[k]).start <= i < units[k].end by {
        lemma_paragraphs_inside(s, 0);
        lemma_paragraphs_cover(s, 0, i);
        lemma_sentences_cover(s, paragraph_spans(s, 0), s.len() as int, i);
        lemma_text_sentences_inside(s);
        lemma_sentences_units_cover(s, text_sentences(s), counts, size, s.len() as int, i);
        let m = choose|m: int| 0 <= m < inside.len() && (#[trigger] inside[m]).0 <= i < inside[m].1;
        assert(units[m].start <= i < units[m].end);
    }
}

/// The tokens of a run of units are counted one by one.
pub proof fn law_tokens_add_up(units: Seq<UnitModel>, a: int, b: int)
    ensures
        token_sum(units, a, a) == 0,
        a <= b ==> token_sum(units, a, b + 1) == token_sum(units, a, b) + units[b].tokens,
{
}

/// Whether the unit ranges `p` and `q` are of chunks that follow one another.
pub open spec fn follows(
    units: Seq<UnitModel>,
    p: (int, int),
    q: (int, int),
    size: usize,
    overlap: usize,
) -> bool {
    &&& 0 <= p.0 <= q.0 <= p.1 < q.1 <= units.len()
    &&& token_sum(units, p.0, p.1) + units[p.1].tokens > size
    &&& token_sum(units, q.0, p.1) <= overlap
    &&& units[p.1].tokens <= size ==> token_sum(units, q.0, p.1 + 1) <= size
    &&& p.0 < q.0 ==> token_sum(units, q.0 - 1, p.1) > overlap || token_sum(
        units,
        q.0 - 1,
        p.1 + 1,
    ) > size
}

proof fn lemma_packed_follow(units: Seq<UnitModel>, a: int, i: int, size: usize, overlap: usize)
    requires
        0 <= a <= i <= units.len(),
    ensures
        a < units.len() ==> pack(units, a, i, size, overlap).len() > 0,
        a == units.len() ==> pack(units, a, i, size, overlap).len() == 0,
        pack(units, a, i, size, overlap).len() > 0 ==> {
            &&& pack(units, a, i, size, overlap)[0].0 == a
            &&& pack(units, a, i, size, overlap).last().1 == units.len()
        },
        forall|k: int|
            0 <= k < pack(units, a, i, size, overlap).len() - 1 ==> follows(
                units,
                #[trigger] pack(units, a, i, size, overlap)[k],
                pack(units, a, i, size, overlap)[k + 1],
                size,
                overlap,
            ),
    decreases units.len() - i,
{
    let ps = pack(units, a, i, size, overlap);
    if i < units.len() {
        if a < i && token_sum(units, a, i) + units[i].tokens > size {
            let b = overlap_from(units, a, i, i, overlap_room(units[i].tokens, size, overlap));
            let rest = pack(units, b, i + 1, size, overlap);
            law_overlap_is_largest(units, a, i, size, overlap);
            lemma_packed_follow(units, b, i + 1, size, overlap);
            lemma_pack_forward(units, b, i + 1, size, overlap);
            assert(ps == seq![(a, i)] + rest);
            assert(ps.last() == rest.last());
            assert(rest[0].1 >= i + 1);
            assert(ps[1] == rest[0]);
            assert forall|k: int| 0 <= k < ps.len() - 1 implies follows(
                units,
                #[trigger] ps[k],
                ps[k + 1],
                size,
                overlap,
            ) by {
                if k > 0 {
                    assert(ps[k] == rest[k - 1]);
                    assert(ps[k + 1] == rest[k]);
                }
            }
        } else {
            lemma_packed_follow(units, a, i + 1, size, overlap);
        }
    }
}

/// Chunks are runs of units that take in as much as they may: the first begins
/// with the first unit, the last ends with the last, and in between each ends
/// in front of the unit that would take it over the chunk size. The next one
/// begins with the most units from the end of the one before that stay within
/// the overlap and leave room for that unit. The result gives the units of each
/// chunk.
pub proof fn law_chunks_take_in_all_they_may(
    s: Seq<char>,
    counts: Counts,
    size: usize,
    overlap: usize,
) -> (of: Seq<(int, int)>)
    ensures
        of.len() == chunk_spans(s, counts, size, overlap).len(),
        of.len() == 0 <==> text_units(s, counts, size).len() == 0,
        of.len() > 0 ==> of[0].0 == 0 && of.last().1 == text_units(s, counts, size).len(),
        forall|k: int|
            0 <= k < of.len() ==> {
                let units = text_units(s, counts, size);
                &&& 0 <= (#[trigger] of[k]).0 < of[k].1 <= units.len()
                &&& chunk_spans(s, counts, size, overlap)[k] == (
                    units[of[k].0].start,
                    units[of[k].1 - 1].end,
                )
            },
        forall|k: int|
            0 <= k < of.len() - 1 ==> {
                let units = text_units(s, counts, size);
                let (a, i) = #[trigger] of[k];
                let b = of[k + 1].0;
                &&& a <= b <= i < of[k + 1].1
                &&& token_sum(units, a, i) + units[i].tokens > size
                &&& token_sum(units, b, i) <= overlap
                &&& units[i].tokens <= size ==> token_sum(units, b, i) + units[i].tokens <= size
                &&& a < b ==> token_sum(units, b - 1, i) > overlap || token_sum(units, b - 1, i)
                    + units[i].tokens > size
            },
{
    let units = text_units(s, counts, size);
    let ps = pack(units, 0, 0, size, overlap);
    lemma_packed_follow(units, 0, 0, size, overlap);
    lemma_pack_forward(units, 0, 0, size, overlap);
    assert forall|k: int| 0 <= k < ps.len() - 1 implies {
        let (a, i) = #[trigger] ps[k];
        let b = ps[k + 1].0;
        &&& a <= b <= i < ps[k + 1].1
        &&& token_sum(units, a, i) + units[i].tokens > size
        &&& token_sum(units, b, i) <= overlap
        &&& units[i].tokens <= size ==> token_sum(units, b, i) + units[i].tokens <= size
        &&& a < b ==> token_sum(units, b - 1, i) > overlap || token_sum(units, b - 1, i)
            + units[i].tokens > size
    } by {
        assert(follows(units, ps[k], ps[k + 1], size, overlap));
    }
    ps
}

/// The chunks of a text are the stretches of it from the start of their first unit
/// to the end of their last one, all of them and in order, and their byte ranges
/// are where these stretches stand in the UTF-8 bytes of the text.
pub proof fn law_chunks_are_stretches_of_the_text(
    chunks: Seq<ChunkCandidate>,
    s: Seq<char>,
    counts: Counts,
    size: usize,
    overlap: usize,
)
    requires
        are_parts(chunks, s, chunk_spans(s, counts, size, overlap)),
    ensures
        chunks.len() == chunk_spans(s, counts, size, overlap).len(),
        forall|k: int|
            0 <= k < chunks.len() ==> {
                let (a, b) = chunk_spans(s, counts, size, overlap)[k];
                let range = (#[trigger] chunks[k]).byte_range;
                let bytes = vstd::utf8::encode_utf8(s);
                &&& 0 <= a < b <= s.len()
                &&& chunks[k].text@ == s.subrange(a, b)
                &&& range.start < range.end <= bytes.len()
                &&& range.start == vstd::utf8::encode_utf8(s.take(a)).len()
                &&& bytes.subrange(range.start as int, range.end as int)
                    == vstd::utf8::encode_utf8(chunks[k].text@)
            },
{
    let spans = chunk_spans(s, counts, size, overlap);
    law_chunks_move_forward(s, counts, size, overlap);
    lemma_parts_are_faithful(chunks, s, counts, size, overlap);
    assert forall|k: int| 0 <= k < chunks.len() implies {
        let (a, b) = spans[k];
        let range = (#[trigger] chunks[k]).byte_range;
        let bytes = vstd::utf8::encode_utf8(s);
        &&& 0 <= a < b <= s.len()
        &&& chunks[k].text@ == s.subrange(a, b)
        &&& range.start < range.end <= bytes.len()
        &&& range.start == vstd::utf8::encode_utf8(s.take(a)).len()
        &&& bytes.subrange(range.start as int, range.end as int) == vstd::utf8::encode_utf8(
            chunks[k].text@,
        )
    } by {
        assert(is_part(chunks[k], s, spans[k]));
        assert(is_faithful(chunks[k], s));
    }
}

/// Each sentence is counted by its own text, and so is each word of a sentence that
/// is too long for a chunk.
pub proof fn law_counts_are_of_their_own_texts(
    splitter: &SentenceSplitter,
    s: Seq<char>,
    counts: Counts,
)
    requires
        splitter.are_counts(s, counts),
    ensures
        counts.sentences.len() == text_sentences(s).len(),
        forall|k: int|
            0 <= k < counts.sentences.len() ==> splitter.counted(
                s.subrange(text_sentences(s)[k].0, text_sentences(s)[k].1),
                #[trigger] counts.sentences[k],
            ),
        forall|k: int, j: int|
            0 <= k < counts.sentences.len() && counts.sentences[k] > splitter.size() && 0 <= j
                < word_spans(s, text_sentences(s)[k].0, text_sentences(s)[k].1).len()
                ==> splitter.counted(
                s.subrange(
                    word_spans(s, text_sentences(s)[k].0, text_sentences(s)[k].1)[j].0,
                    word_spans(s, text_sentences(s)[k].0, text_sentences(s)[k].1)[j].1,
                ),
                #[trigger] counts.words[k][j],
            ),
{
    assert forall|k: int, j: int|
        0 <= k < counts.sentences.len() && counts.sentences[k] > splitter.size() && 0 <= j
            < word_spans(
            s,
            text_sentences(s)[k].0,
            text_sentences(s)[k].1,
        ).len() implies splitter.counted(
        s.subrange(
            word_spans(s, text_sentences(s)[k].0, text_sentences(s)[k].1)[j].0,
            word_spans(s, text_sentences(s)[k].0, text_sentences(s)[k].1)[j].1,
        ),
        #[trigger] counts.words[k][j],
    ) by {
        assert(splitter.are_word_counts(s, text_sentences(s)[k], counts.words[k]));
    }
}

/// A text counts as many tokens as the tokenizer gives for it; where it gives none,
/// or is not known to work on every text, as many as the text has characters.
pub(crate) proof fn law_tokens_are_those_of_the_tokenizer(
    splitter: &SentenceSplitter,
    s: Seq<char>,
    n: usize,
)
    requires
        splitter.counted(s, n),
    ensures
        (tokens::is_checked(&splitter.tokenizer(), false) && n == s.len()) || exists|
            t: &str,
            r: Option<usize>,
        |
            #![trigger call_ensures(tokens::encoded_len, (&splitter.tokenizer(), t), r)]
            t@ == s && call_ensures(tokens::encoded_len, (&splitter.tokenizer(), t), r) && (
            r matches Some(tokens) ==> n == tokens) && (r is None ==> n == s.len()),
{
    if !(tokens::is_checked(&splitter.tokenizer, false) && n == s.len()) {
        let (t, r) = choose|t: &str, r: Option<usize>|
            #![trigger call_ensures(tokens::encoded_len, (&splitter.tokenizer, t), r)]
            t@ == s && call_ensures(tokens::encoded_len, (&splitter.tokenizer, t), r) && n
                == match r {
                Some(tokens) => tokens as nat,
                None => s.len(),
            };
        assert(call_ensures(tokens::encoded_len, (&splitter.tokenizer(), t), r));
    }
}

} // verus!
