//! Word segmentation for the full-text index.

use jieba_rs::Jieba;
use vstd::prelude::*;

use crate::text;
use crate::traits::WordSegmenter;

verus! {

/// The words that jieba splits a text into, with its built-in dictionary and
/// without guessing unknown words.
pub uninterp spec fn jieba_words(s: Seq<char>) -> Seq<Seq<char>>;

/// The parts in a row.
pub open spec fn flat(parts: Seq<Seq<char>>) -> Seq<char>
    decreases parts.len(),
{
    if parts.len() == 0 {
        Seq::empty()
    } else {
        flat(parts.drop_last()) + parts.last()
    }
}

/// Whether the words make up a text: none is empty, and in a row they are the
/// text, so that no character is lost, added or moved.
pub open spec fn are_words_of(words: Seq<Seq<char>>, s: Seq<char>) -> bool {
    &&& flat(words) == s
    &&& forall|i: int| 0 <= i < words.len() ==> (#[trigger] words[i]).len() > 0
}

proof fn lemma_no_words(words: Seq<Seq<char>>)
    requires
        are_words_of(words, Seq::empty()),
    ensures
        text::joined(words, " "@).len() == 0,
{
    if words.len() > 0 {
        assert(words.last().len() > 0);
        assert(flat(words).len() >= words.last().len());
    }
}

/// A dictionary of the `jieba_rs` crate.
#[verifier::external_type_specification]
#[verifier::external_body]
pub struct ExJieba(jieba_rs::Jieba);

/// `Jieba::new`: the built-in dictionary.
#[verifier::external_body]
fn built_in_dictionary() -> (r: Jieba) {
    Jieba::new()
}

/// A segmenter with the dictionary in memory. Each one holds the built-in
/// dictionary.
pub struct Segmenter {
    jieba: Jieba,
}

impl Segmenter {
    /// Whether the dictionary is one that [`built_in_dictionary`] gave.
    #[verifier::type_invariant]
    pub closed spec fn is_built_in(self) -> bool {
        call_ensures(built_in_dictionary, (), self.jieba)
    }
}

/// `Jieba::cut` without the model for unknown words.
///
/// The words depend on the text and on the dictionary, which has to be the
/// built-in one. They are stretches of the text that follow one
/// another and none is empty, so in a row they are the text.
#[verifier::external_body]
fn cut(segmenter: &Segmenter, text: &str) -> (r: Vec<String>)
    requires
        segmenter.is_built_in(),
    ensures
        text::views(r@) == jieba_words(text@),
        flat(text::views(r@)) == text@,
        forall|i: int| 0 <= i < r@.len() ==> (#[trigger] r@[i])@.len() > 0,
{
    segmenter.jieba.cut(text, false).into_iter().map(String::from).collect()
}

impl Segmenter {
    /// Loads the built-in dictionary.
    pub fn new() -> (r: Self)
        ensures
            r.is_built_in(),
    {
        Segmenter { jieba: built_in_dictionary() }
    }
}

impl WordSegmenter for Segmenter {
    /// The words of `text`, with spaces between them.
    fn segment(&self, text: &str) -> (r: String)
        ensures
            r@ == text::joined(jieba_words(text@), " "@),
            are_words_of(jieba_words(text@), text@),
            text@.len() == 0 ==> r@.len() == 0,
    {
        proof {
            use_type_invariant(self);
        }
        let words = cut(self, text);
        proof {
            let all = jieba_words(text@);
            assert forall|i: int| 0 <= i < all.len() implies (#[trigger] all[i]).len() > 0 by {
                assert(all[i] == words@[i]@);
            }
            if text@.len() == 0 {
                lemma_no_words(all);
            }
        }
        text::join(&words, " ")
    }
}

/// A segmenter that loads the dictionary for each text.
pub struct JiebaSegmenter;

impl Default for JiebaSegmenter {
    fn default() -> (r: Self)
        ensures
            r == JiebaSegmenter,
    {
        JiebaSegmenter
    }
}

impl WordSegmenter for JiebaSegmenter {
    /// The words of `text`, with spaces between them.
    fn segment(&self, text: &str) -> (r: String)
        ensures
            r@ == text::joined(jieba_words(text@), " "@),
            are_words_of(jieba_words(text@), text@),
            text@.len() == 0 ==> r@.len() == 0,
    {
        Segmenter::new().segment(text)
    }
}

/// The words of `text`, with spaces between them.
pub fn jieba_tokenize(text: &str) -> (r: String)
    ensures
        r@ == text::joined(jieba_words(text@), " "@),
        are_words_of(jieba_words(text@), text@),
        text@.len() == 0 ==> r@.len() == 0,
{
    JiebaSegmenter.segment(text)
}

/// The words of a text in a row are the text: every character of it stands in one
/// of them, in order, and nothing else does.
pub proof fn law_words_in_a_row(words: Seq<Seq<char>>, word: Seq<char>)
    ensures
        flat(Seq::empty()) == Seq::<char>::empty(),
        flat(words.push(word)) == flat(words) + word,
{
    assert(words.push(word).drop_last() =~= words);
}

} // verus!
