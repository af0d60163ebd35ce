//! Counting tokens.

use tokenizers::{
    NormalizerWrapper, PaddingStrategy, PostProcessorWrapper, PreTokenizerWrapper, Tokenizer,
};
use vstd::prelude::*;

use crate::{charsmap, text};

verus! {

/// A tokenizer of the `tokenizers` crate.
#[verifier::external_type_specification]
#[verifier::external_body]
pub struct ExTokenizer(tokenizers::Tokenizer);

/// A step that rewrites a text before it is cut.
#[verifier::external_type_specification]
#[verifier::external_body]
pub struct ExNormalizerWrapper(tokenizers::NormalizerWrapper);

/// A step that cuts a text in front of the model of a tokenizer.
#[verifier::external_type_specification]
#[verifier::external_body]
pub struct ExPreTokenizerWrapper(tokenizers::PreTokenizerWrapper);

/// A step behind the model of a tokenizer.
#[verifier::external_type_specification]
#[verifier::external_body]
pub struct ExPostProcessorWrapper(tokenizers::PostProcessorWrapper);

// ---- how a tokenizer is set up ----

/// What a rewriting step does. `Precompiled` and `Replace` hold the step as it is
/// printed, `Prepend` the text that is put in front.
pub enum Normalizing<'a> {
    /// Several steps in turn.
    Steps(&'a [NormalizerWrapper]),
    Bert,
    Strip,
    StripAccents,
    /// One of the two canonical forms of Unicode.
    Canonical,
    /// One of the two compatibility forms of Unicode.
    Compatible,
    Lowercase,
    Nmt,
    Precompiled(String),
    Replace(String),
    Prepend(String),
    ByteLevel,
}

/// What a cutting step does. `ByteLevel` holds whether it cuts by a regular
/// expression, `FixedLength` how many characters a piece has.
pub enum PreTokenizing<'a> {
    /// Several steps in turn.
    Steps(&'a [PreTokenizerWrapper]),
    Bert,
    ByteLevel(bool),
    Delimiter,
    Metaspace,
    Whitespace,
    Split,
    Punctuation,
    WhitespaceSplit,
    Digits,
    UnicodeScripts,
    FixedLength(usize),
}

/// How a tokenizer shortens what it encodes.
#[derive(Debug, Clone, Copy, PartialEq, Eq, Structural)]
pub struct Truncation {
    /// The most tokens that are kept.
    pub max_length: usize,
    /// The tokens that two parts of a long text have in common.
    pub stride: usize,
}

/// What a step behind the model does. `Template` holds the template for one text
/// as the crate prints it.
pub enum PostProcessing<'a> {
    /// Several steps in turn.
    Steps(&'a [PostProcessorWrapper]),
    Roberta,
    Bert,
    ByteLevel,
    Template(String),
}

/// How a tokenizer lengthens what it encodes.
#[derive(Debug, Clone, Copy, PartialEq, Eq, Structural)]
pub struct Padding {
    /// The tokens that there are to be, where that is fixed.
    pub length: Option<usize>,
    /// What the number of tokens is to be a multiple of.
    pub multiple: Option<usize>,
}

/// `Tokenizer::get_added_vocabulary`: the tokens that were added to those of the
/// model, as `Debug` prints them. Nothing is claimed of the text: what it tells is
/// hidden in the tokenizer.
#[verifier::external_body]
fn added_vocabulary_of(tokenizer: &Tokenizer) -> (r: String) {
    format!("{:?}", tokenizer.get_added_vocabulary())
}

/// `Tokenizer::get_normalizer`: the rewriting step, if there is one. Nothing is
/// claimed of it: it is hidden in the tokenizer.
#[verifier::external_body]
fn normalizer_of(tokenizer: &Tokenizer) -> (r: Option<&NormalizerWrapper>) {
    tokenizer.get_normalizer()
}

/// `Tokenizer::get_pre_tokenizer`: the cutting step, if there is one. Nothing is
/// claimed of it: it is hidden in the tokenizer.
#[verifier::external_body]
fn pre_tokenizer_of(tokenizer: &Tokenizer) -> (r: Option<&PreTokenizerWrapper>) {
    tokenizer.get_pre_tokenizer()
}

/// `Tokenizer::get_truncation`: how the tokenizer shortens what it encodes, or
/// `None` where it keeps everything.
///
/// Nothing is claimed of the values: they are hidden in the tokenizer.
#[verifier::external_body]
fn truncation_of(tokenizer: &Tokenizer) -> (r: Option<Truncation>) {
    let found = tokenizer.get_truncation();
    found.map(|t| Truncation { max_length: t.max_length, stride: t.stride })
}

/// `Tokenizer::get_post_processor`: the step behind the model, if there is one.
/// Nothing is claimed of it: it is hidden in the tokenizer.
#[verifier::external_body]
fn post_processor_of(tokenizer: &Tokenizer) -> (r: Option<&PostProcessorWrapper>) {
    tokenizer.get_post_processor()
}

/// `Tokenizer::get_padding`: how the tokenizer lengthens what it encodes, or `None`
/// where it does not.
///
/// Nothing is claimed of the values: they are hidden in the tokenizer.
#[verifier::external_body]
fn padding_of(tokenizer: &Tokenizer) -> (r: Option<Padding>) {
    let found = tokenizer.get_padding();
    found.map(|p| Padding {
        length: match p.strategy {
            PaddingStrategy::Fixed(length) => Some(length),
            PaddingStrategy::BatchLongest => None,
        },
        multiple: p.pad_to_multiple_of,
    })
}

/// Which variant of `NormalizerWrapper` a step is; a `Precompiled` and a `Replace`
/// as `Debug` prints them. Nothing is claimed of the answer: it is hidden in the
/// step.
#[verifier::external_body]
fn normalizing<'a>(step: &'a NormalizerWrapper) -> (r: Normalizing<'a>) {
    match step {
        NormalizerWrapper::Sequence(steps) => Normalizing::Steps(steps.as_ref()),
        NormalizerWrapper::BertNormalizer(_) => Normalizing::Bert,
        NormalizerWrapper::StripNormalizer(_) => Normalizing::Strip,
        NormalizerWrapper::StripAccents(_) => Normalizing::StripAccents,
        NormalizerWrapper::NFC(_) | NormalizerWrapper::NFD(_) => Normalizing::Canonical,
        NormalizerWrapper::NFKC(_) | NormalizerWrapper::NFKD(_) => Normalizing::Compatible,
        NormalizerWrapper::Lowercase(_) => Normalizing::Lowercase,
        NormalizerWrapper::Nmt(_) => Normalizing::Nmt,
        NormalizerWrapper::Precompiled(step) => Normalizing::Precompiled(format!("{:?}", step)),
        NormalizerWrapper::Replace(step) => Normalizing::Replace(format!("{:?}", step)),
        NormalizerWrapper::Prepend(step) => Normalizing::Prepend(step.prepend.clone()),
        NormalizerWrapper::ByteLevel(_) => Normalizing::ByteLevel,
    }
}

/// Which variant of `PreTokenizerWrapper` a step is. Nothing is claimed of the
/// answer: it is hidden in the step.
#[verifier::external_body]
fn pre_tokenizing<'a>(step: &'a PreTokenizerWrapper) -> (r: PreTokenizing<'a>) {
    match step {
        PreTokenizerWrapper::Sequence(steps) => PreTokenizing::Steps(steps.as_ref()),
        PreTokenizerWrapper::BertPreTokenizer(_) => PreTokenizing::Bert,
        PreTokenizerWrapper::ByteLevel(step) => PreTokenizing::ByteLevel(step.use_regex),
        PreTokenizerWrapper::Delimiter(_) => PreTokenizing::Delimiter,
        PreTokenizerWrapper::Metaspace(_) => PreTokenizing::Metaspace,
        PreTokenizerWrapper::Whitespace(_) => PreTokenizing::Whitespace,
        PreTokenizerWrapper::Split(_) => PreTokenizing::Split,
        PreTokenizerWrapper::Punctuation(_) => PreTokenizing::Punctuation,
        PreTokenizerWrapper::WhitespaceSplit(_) => PreTokenizing::WhitespaceSplit,
        PreTokenizerWrapper::Digits(_) => PreTokenizing::Digits,
        PreTokenizerWrapper::UnicodeScripts(_) => PreTokenizing::UnicodeScripts,
        PreTokenizerWrapper::FixedLength(step) => PreTokenizing::FixedLength(step.length),
    }
}

/// Which variant of `PostProcessorWrapper` a step is; of a template, what
/// `TemplateProcessing::get_single` prints. Nothing is claimed of the answer: it
/// is hidden in the step.
#[verifier::external_body]
fn post_processing<'a>(step: &'a PostProcessorWrapper) -> (r: PostProcessing<'a>) {
    match step {
        PostProcessorWrapper::Sequence(steps) => PostProcessing::Steps(steps.as_ref()),
        PostProcessorWrapper::Roberta(_) => PostProcessing::Roberta,
        PostProcessorWrapper::Bert(_) => PostProcessing::Bert,
        PostProcessorWrapper::ByteLevel(_) => PostProcessing::ByteLevel,
        PostProcessorWrapper::Template(step) => PostProcessing::Template(step.get_single()),
    }
}

// ---- parts that work ----

/// Whether added tokens can be found in every text, by how they are printed
/// together with what looks for them.
///
/// A token that is looked for in the rewritten text may itself have been rewritten
/// to nothing, which is then found inside of characters. Where one token takes the
/// spaces behind it and another those in front of it, the second may end before it
/// starts.
pub open spec fn can_find_added(printed: Seq<char>) -> bool {
    &&& text::occurs_in("shortest pattern length: "@, printed)
    &&& !text::occurs_in("shortest pattern length: 0"@, printed)
    &&& !(text::occurs_in("lstrip: true"@, printed) && text::occurs_in("rstrip: true"@, printed))
}

/// What a printed `Replace` starts with that looks for a plain text.
pub const REPLACES_TEXT: &'static str = "Replace { pattern: String(\"";

/// What a printed `Replace` starts with that looks for the empty text. A quote
/// inside of a text is printed behind a backslash.
pub const REPLACES_NOTHING: &'static str = "Replace { pattern: String(\"\"";

/// What a printed `Replace` starts with that looks for two or more spaces.
pub const REPLACES_SPACES: &'static str = "Replace { pattern: Regex(\" {2,}\")";

/// Whether a printed `Replace` looks for a plain text that is not empty, or for two
/// or more spaces.
pub open spec fn can_replace(printed: Seq<char>) -> bool {
    ||| REPLACES_TEXT@.is_prefix_of(printed) && !REPLACES_NOTHING@.is_prefix_of(printed)
    ||| REPLACES_SPACES@.is_prefix_of(printed)
}

/// Whether a rewriting step, which is not made of others, works on every text.
///
/// A regular expression can fail on a text. What is put in front of the first
/// character in place of nothing belongs to no part of the text, and a step behind
/// it that rewrites all characters then finds one too few; so a pattern is not
/// empty, and neither is what is put in front. A precompiled map is not to be left.
pub open spec fn can_rewrite(kind: Normalizing) -> bool {
    match kind {
        Normalizing::Steps(_) => false,
        Normalizing::Precompiled(printed) => charsmap::prints_sound_map(printed@),
        Normalizing::Replace(printed) => can_replace(printed@),
        Normalizing::Prepend(front) => front@.len() > 0,
        Normalizing::Bert
        | Normalizing::Strip
        | Normalizing::StripAccents
        | Normalizing::Canonical
        | Normalizing::Compatible
        | Normalizing::Lowercase
        | Normalizing::Nmt
        | Normalizing::ByteLevel => true,
    }
}

/// Whether a cutting step, which is not made of others, works on every text.
///
/// A regular expression that backtracks can fail on a text, and no text is cut
/// into pieces of no characters. The pattern of a `Split` need not be what it
/// looks for: the two can be set apart from each other.
pub open spec fn can_cut(kind: PreTokenizing) -> bool {
    match kind {
        PreTokenizing::Steps(_) | PreTokenizing::Split => false,
        PreTokenizing::ByteLevel(use_regex) => !use_regex,
        PreTokenizing::FixedLength(length) => length != 0,
        PreTokenizing::Bert
        | PreTokenizing::Delimiter
        | PreTokenizing::Metaspace
        | PreTokenizing::Whitespace
        | PreTokenizing::Punctuation
        | PreTokenizing::WhitespaceSplit
        | PreTokenizing::Digits
        | PreTokenizing::UnicodeScripts => true,
    }
}

/// Whether a long text can be shortened this way: each part has to go further
/// than the one before it.
pub open spec fn can_truncate(truncation: Option<Truncation>) -> bool {
    match truncation {
        Some(t) => t.max_length == 0 || t.stride < t.max_length,
        None => true,
    }
}

/// How far the text that prints a template was read.
#[derive(Debug, Clone, Copy, PartialEq, Eq, Structural)]
pub struct Reading {
    /// Inside of the name of a special token.
    pub quoted: bool,
    /// Behind a backslash.
    pub escaped: bool,
    /// The first text was asked for.
    pub first: bool,
    /// The first text was asked for again.
    pub again: bool,
    /// The second text was asked for.
    pub second: bool,
}

pub open spec fn read_on(at: Reading, c: char) -> Reading {
    if at.quoted && at.escaped {
        Reading { escaped: false, ..at }
    } else if at.quoted {
        Reading { quoted: c != '"', escaped: c == '\\', ..at }
    } else if c == '"' {
        Reading { quoted: true, ..at }
    } else if c == 'A' {
        Reading { first: true, again: at.first, ..at }
    } else if c == 'B' {
        Reading { second: true, ..at }
    } else {
        at
    }
}

pub open spec fn reading(printed: Seq<char>) -> Reading
    decreases printed.len(),
{
    if printed.len() == 0 {
        Reading { quoted: false, escaped: false, first: false, again: false, second: false }
    } else {
        read_on(reading(printed.drop_last()), printed.last())
    }
}

/// Whether a printed template holds the first text once and no second one, so that
/// one encoding goes in and one comes out. Outside of quotes an `A` or a `B` is
/// nothing but the name of a text.
pub open spec fn fills_in_once(printed: Seq<char>) -> bool {
    let end = reading(printed);
    end.first && !end.again && !end.second
}

/// Whether a step behind the model, which is not made of others, works on every
/// text, and on what a step in front of it gave.
pub open spec fn can_process(kind: PostProcessing) -> bool {
    match kind {
        PostProcessing::Steps(_) => false,
        PostProcessing::Template(single) => fills_in_once(single@),
        PostProcessing::Roberta | PostProcessing::Bert | PostProcessing::ByteLevel => true,
    }
}

/// The most tokens that are filled up to.
pub const MAX_PADDING: usize = 65_536;

pub open spec fn is_moderate(n: Option<usize>) -> bool {
    match n {
        Some(n) => n <= MAX_PADDING,
        None => true,
    }
}

/// Whether there is room for what a text is lengthened to.
pub open spec fn can_pad(padding: Option<Padding>) -> bool {
    match padding {
        Some(p) => is_moderate(p.length) && is_moderate(p.multiple),
        None => true,
    }
}

// ---- setups that work ----

/// How deep steps that are made of others are looked into. Deeper ones count as
/// steps that do not work.
pub const MAX_DEPTH: usize = 64;

pub open spec fn all_true(oks: Seq<bool>) -> bool {
    forall|i: int| 0 <= i < oks.len() ==> #[trigger] oks[i]
}

/// Whether `ok` is what looking through a rewriting step, not deeper than `depth`,
/// tells.
spec fn normalizer_checked(step: &NormalizerWrapper, depth: nat, ok: bool) -> bool
    decreases depth,
{
    if depth == 0 {
        !ok
    } else {
        exists|kind: Normalizing|
            #![trigger call_ensures(normalizing, (step,), kind)]
            call_ensures(normalizing, (step,), kind) && match kind {
                Normalizing::Steps(steps) => exists|oks: Seq<bool>|
                    {
                        &&& oks.len() == steps@.len()
                        &&& forall|i: int|
                            0 <= i < oks.len() ==> normalizer_checked(
                                &steps@[i],
                                (depth - 1) as nat,
                                #[trigger] oks[i],
                            )
                        &&& ok == #[trigger] all_true(oks)
                    },
                _ => ok == can_rewrite(kind),
            }
    }
}

/// Whether `ok` is what looking through a cutting step, not deeper than `depth`,
/// tells.
spec fn pre_checked(step: &PreTokenizerWrapper, depth: nat, ok: bool) -> bool
    decreases depth,
{
    if depth == 0 {
        !ok
    } else {
        exists|kind: PreTokenizing|
            #![trigger call_ensures(pre_tokenizing, (step,), kind)]
            call_ensures(pre_tokenizing, (step,), kind) && match kind {
                PreTokenizing::Steps(steps) => exists|oks: Seq<bool>|
                    {
                        &&& oks.len() == steps@.len()
                        &&& forall|i: int|
                            0 <= i < oks.len() ==> pre_checked(
                                &steps@[i],
                                (depth - 1) as nat,
                                #[trigger] oks[i],
                            )
                        &&& ok == #[trigger] all_true(oks)
                    },
                _ => ok == can_cut(kind),
            }
    }
}

/// Whether `ok` is what looking through a step behind the model, not deeper than
/// `depth`, tells.
spec fn post_checked(step: &PostProcessorWrapper, depth: nat, ok: bool) -> bool
    decreases depth,
{
    if depth == 0 {
        !ok
    } else {
        exists|kind: PostProcessing|
            #![trigger call_ensures(post_processing, (step,), kind)]
            call_ensures(post_processing, (step,), kind) && match kind {
                PostProcessing::Steps(steps) => exists|oks: Seq<bool>|
                    {
                        &&& oks.len() == steps@.len()
                        &&& forall|i: int|
                            0 <= i < oks.len() ==> post_checked(
                                &steps@[i],
                                (depth - 1) as nat,
                                #[trigger] oks[i],
                            )
                        &&& ok == #[trigger] all_true(oks)
                    },
                _ => ok == can_process(kind),
            }
    }
}

/// Whether `ok` is what looking at the added tokens tells.
spec fn added_checked(tokenizer: &Tokenizer, ok: bool) -> bool {
    exists|found: String|
        #![trigger call_ensures(added_vocabulary_of, (tokenizer,), found)]
        call_ensures(added_vocabulary_of, (tokenizer,), found) && ok == can_find_added(found@)
}

/// Whether `ok` is what looking at the rewriting steps tells.
spec fn rewriting_checked(tokenizer: &Tokenizer, ok: bool) -> bool {
    exists|found: Option<&NormalizerWrapper>|
        #![trigger call_ensures(normalizer_of, (tokenizer,), found)]
        call_ensures(normalizer_of, (tokenizer,), found) && match found {
            Some(step) => normalizer_checked(step, MAX_DEPTH as nat, ok),
            None => ok,
        }
}

/// Whether `ok` is what looking at the cutting steps tells.
spec fn cutting_checked(tokenizer: &Tokenizer, ok: bool) -> bool {
    exists|found: Option<&PreTokenizerWrapper>|
        #![trigger call_ensures(pre_tokenizer_of, (tokenizer,), found)]
        call_ensures(pre_tokenizer_of, (tokenizer,), found) && match found {
            Some(step) => pre_checked(step, MAX_DEPTH as nat, ok),
            None => ok,
        }
}

/// Whether `ok` is what looking at the truncation tells.
spec fn truncation_checked(tokenizer: &Tokenizer, ok: bool) -> bool {
    exists|found: Option<Truncation>|
        #![trigger call_ensures(truncation_of, (tokenizer,), found)]
        call_ensures(truncation_of, (tokenizer,), found) && ok == can_truncate(found)
}

/// Whether `ok` is what looking at the steps behind the model tells.
spec fn processing_checked(tokenizer: &Tokenizer, ok: bool) -> bool {
    exists|found: Option<&PostProcessorWrapper>|
        #![trigger call_ensures(post_processor_of, (tokenizer,), found)]
        call_ensures(post_processor_of, (tokenizer,), found) && match found {
            Some(step) => post_checked(step, MAX_DEPTH as nat, ok),
            None => ok,
        }
}

/// Whether `ok` is what looking at the padding tells.
spec fn padding_checked(tokenizer: &Tokenizer, ok: bool) -> bool {
    exists|found: Option<Padding>|
        #![trigger call_ensures(padding_of, (tokenizer,), found)]
        call_ensures(padding_of, (tokenizer,), found) && ok == can_pad(found)
}

/// Whether `ok` is what looking through the setup of a tokenizer tells: whether all
/// of its parts are among those that work on every text.
pub closed spec fn is_checked(tokenizer: &Tokenizer, ok: bool) -> bool {
    exists|a: bool, b: bool, c: bool, d: bool, e: bool, f: bool|
        #![trigger added_checked(tokenizer, a), rewriting_checked(tokenizer, b), cutting_checked(tokenizer, c), truncation_checked(tokenizer, d), processing_checked(tokenizer, e), padding_checked(tokenizer, f)]
        {
            &&& added_checked(tokenizer, a)
            &&& rewriting_checked(tokenizer, b)
            &&& cutting_checked(tokenizer, c)
            &&& truncation_checked(tokenizer, d)
            &&& processing_checked(tokenizer, e)
            &&& padding_checked(tokenizer, f)
            &&& ok == (a && b && c && d && e && f)
        }
}

// ---- looking through a setup ----

fn finds_added(printed: &str) -> (r: bool)
    ensures
        r == can_find_added(printed@),
{
    text::contains(printed, "shortest pattern length: ") && !text::contains(
        printed,
        "shortest pattern length: 0",
    ) && !(text::contains(printed, "lstrip: true") && text::contains(printed, "rstrip: true"))
}

fn replaces(printed: &str) -> (r: bool)
    ensures
        r == can_replace(printed@),
{
    text::starts_with(printed, REPLACES_TEXT) && !text::starts_with(printed, REPLACES_NOTHING)
        || text::starts_with(printed, REPLACES_SPACES)
}

fn rewrites(kind: &Normalizing) -> (r: bool)
    ensures
        r == can_rewrite(*kind),
{
    match kind {
        Normalizing::Steps(_) => false,
        Normalizing::Precompiled(printed) => charsmap::check_printed(printed.as_str()),
        Normalizing::Replace(printed) => replaces(printed.as_str()),
        Normalizing::Prepend(front) => front.as_str().unicode_len() > 0,
        _ => true,
    }
}

fn cuts(kind: &PreTokenizing) -> (r: bool)
    ensures
        r == can_cut(*kind),
{
    match kind {
        PreTokenizing::Steps(_) => false,
        PreTokenizing::Split => false,
        PreTokenizing::ByteLevel(use_regex) => !*use_regex,
        PreTokenizing::FixedLength(length) => *length != 0,
        _ => true,
    }
}

/// Reads a printed template to its end.
fn fills_in(printed: &str) -> (r: bool)
    ensures
        r == fills_in_once(printed@),
{
    let chars = text::chars_of(printed);
    let mut at = Reading {
        quoted: false,
        escaped: false,
        first: false,
        again: false,
        second: false,
    };
    let mut i: usize = 0;
    while i < chars.len()
        invariant
            chars@ == printed@,
            i <= chars@.len(),
            at == reading(printed@.take(i as int)),
        decreases chars@.len() - i,
    {
        let c: char = chars[i];
        proof {
            let next = printed@.take(i + 1);
            assert(next.drop_last() =~= printed@.take(i as int));
            assert(next.last() == c);
        }
        if at.quoted && at.escaped {
            at.escaped = false;
        } else if at.quoted {
            at.quoted = c != '"';
            at.escaped = c == '\\';
        } else if c == '"' {
            at.quoted = true;
        } else if c == 'A' {
            at.again = at.first;
            at.first = true;
        } else if c == 'B' {
            at.second = true;
        }
        i += 1;
    }
    proof {
        assert(printed@.take(i as int) =~= printed@);
    }
    at.first && !at.again && !at.second
}

fn processes(kind: &PostProcessing) -> (r: bool)
    ensures
        r == can_process(*kind),
{
    match kind {
        PostProcessing::Steps(_) => false,
        PostProcessing::Template(single) => fills_in(single.as_str()),
        _ => true,
    }
}

fn moderate(n: Option<usize>) -> (r: bool)
    ensures
        r == is_moderate(n),
{
    match n {
        Some(n) => n <= MAX_PADDING,
        None => true,
    }
}

proof fn lemma_all_true_push(oks: Seq<bool>, one: bool)
    ensures
        all_true(oks.push(one)) == (all_true(oks) && one),
{
    let more = oks.push(one);
    if all_true(more) {
        assert forall|k: int| 0 <= k < oks.len() implies #[trigger] oks[k] by {
            assert(more[k] == oks[k]);
        }
        assert(more[oks.len() as int] == one);
    }
}

fn check_normalizer(step: &NormalizerWrapper, depth: usize) -> (ok: bool)
    ensures
        normalizer_checked(step, depth as nat, ok),
    decreases depth,
{
    if depth == 0 {
        return false;
    }
    let kind = normalizing(step);
    match kind {
        Normalizing::Steps(steps) => {
            let mut ok: bool = true;
            let ghost mut oks: Seq<bool> = Seq::empty();
            let mut i: usize = 0;
            while i < steps.len()
                invariant
                    depth > 0,
                    i <= steps@.len(),
                    oks.len() == i,
                    forall|k: int|
                        0 <= k < i ==> normalizer_checked(
                            &steps@[k],
                            (depth - 1) as nat,
                            #[trigger] oks[k],
                        ),
                    ok == all_true(oks),
                decreases steps@.len() - i,
            {
                let one: bool = check_normalizer(&steps[i], depth - 1);
                proof {
                    lemma_all_true_push(oks, one);
                    oks = oks.push(one);
                }
                ok = ok && one;
                i += 1;
            }
            ok
        },
        _ => rewrites(&kind),
    }
}

fn check_pre(step: &PreTokenizerWrapper, depth: usize) -> (ok: bool)
    ensures
        pre_checked(step, depth as nat, ok),
    decreases depth,
{
    if depth == 0 {
        return false;
    }
    let kind = pre_tokenizing(step);
    match kind {
        PreTokenizing::Steps(steps) => {
            let mut ok: bool = true;
            let ghost mut oks: Seq<bool> = Seq::empty();
            let mut i: usize = 0;
            while i < steps.len()
                invariant
                    depth > 0,
                    i <= steps@.len(),
                    oks.len() == i,
                    forall|k: int|
                        0 <= k < i ==> pre_checked(
                            &steps@[k],
                            (depth - 1) as nat,
                            #[trigger] oks[k],
                        ),
                    ok == all_true(oks),
                decreases steps@.len() - i,
            {
                let one: bool = check_pre(&steps[i], depth - 1);
                proof {
                    lemma_all_true_push(oks, one);
                    oks = oks.push(one);
                }
                ok = ok && one;
                i += 1;
            }
            ok
        },
        _ => cuts(&kind),
    }
}

fn check_post(step: &PostProcessorWrapper, depth: usize) -> (ok: bool)
    ensures
        post_checked(step, depth as nat, ok),
    decreases depth,
{
    if depth == 0 {
        return false;
    }
    let kind = post_processing(step);
    match kind {
        PostProcessing::Steps(steps) => {
            let mut ok: bool = true;
            let ghost mut oks: Seq<bool> = Seq::empty();
            let mut i: usize = 0;
            while i < steps.len()
                invariant
                    depth > 0,
                    i <= steps@.len(),
                    oks.len() == i,
                    forall|k: int|
                        0 <= k < i ==> post_checked(
                            &steps@[k],
                            (depth - 1) as nat,
                            #[trigger] oks[k],
                        ),
                    ok == all_true(oks),
                decreases steps@.len() - i,
            {
                let one: bool = check_post(&steps[i], depth - 1);
                proof {
                    lemma_all_true_push(oks, one);
                    oks = oks.push(one);
                }
                ok = ok && one;
                i += 1;
            }
            ok
        },
        _ => processes(&kind),
    }
}

/// Looks through the setup of a tokenizer: whether each of its parts is one that
/// works on every text. A part that is not known to do so counts as one that does
/// not.
pub fn check_setup(tokenizer: &Tokenizer) -> (ok: bool)
    ensures
        is_checked(tokenizer, ok),
{
    let printed = added_vocabulary_of(tokenizer);
    let a: bool = finds_added(printed.as_str());
    assert(added_checked(tokenizer, a));
    let b: bool = match normalizer_of(tokenizer) {
        Some(step) => check_normalizer(step, MAX_DEPTH),
        None => true,
    };
    assert(rewriting_checked(tokenizer, b));
    let c: bool = match pre_tokenizer_of(tokenizer) {
        Some(step) => check_pre(step, MAX_DEPTH),
        None => true,
    };
    assert(cutting_checked(tokenizer, c));
    let d: bool = match truncation_of(tokenizer) {
        Some(t) => t.max_length == 0 || t.stride < t.max_length,
        None => true,
    };
    assert(truncation_checked(tokenizer, d));
    let e: bool = match post_processor_of(tokenizer) {
        Some(step) => check_post(step, MAX_DEPTH),
        None => true,
    };
    assert(processing_checked(tokenizer, e));
    let f: bool = match padding_of(tokenizer) {
        Some(p) => moderate(p.length) && moderate(p.multiple),
        None => true,
    };
    assert(padding_checked(tokenizer, f));
    a && b && c && d && e && f
}

// ---- counting ----

/// The number of token ids that `Tokenizer::encode` gives for `text` without
/// special tokens, or `None` where it fails. All parts of the tokenizer have to be
/// among those that work on every text, or the call may panic; the four models of
/// the crate all do.
///
/// Nothing is claimed of the number: what the tokenizer was built from is
/// hidden in it, and a model with dropout gives a different number each time.
#[verifier::external_body]
pub(crate) fn encoded_len(tokenizer: &Tokenizer, text: &str) -> (r: Option<usize>)
    requires
        is_checked(tokenizer, true),
{
    tokenizer.encode(text, false).map(|e| e.get_ids().len()).ok()
}

// ---- which parts work ----

/// Of the steps that rewrite a text those work that need no search for what may be
/// nothing: a map that is sound, a text or spaces to replace, and something to put
/// in front.
pub proof fn law_rewriting_steps_that_work(printed: String)
    ensures
        can_rewrite(Normalizing::Bert),
        can_rewrite(Normalizing::Strip),
        can_rewrite(Normalizing::StripAccents),
        can_rewrite(Normalizing::Canonical),
        can_rewrite(Normalizing::Compatible),
        can_rewrite(Normalizing::Lowercase),
        can_rewrite(Normalizing::Nmt),
        can_rewrite(Normalizing::ByteLevel),
        can_rewrite(Normalizing::Prepend(printed)) <==> printed@.len() > 0,
        can_rewrite(Normalizing::Replace(printed)) <==> ("Replace { pattern: String(\""@.is_prefix_of(
            printed@,
        ) && !"Replace { pattern: String(\"\""@.is_prefix_of(printed@))
            || "Replace { pattern: Regex(\" {2,}\")"@.is_prefix_of(printed@),
        can_rewrite(Normalizing::Precompiled(printed)) <==> charsmap::prints_sound_map(printed@),
{
}

/// All steps that cut a text work but those that may backtrack and one that cuts
/// pieces of no characters.
pub proof fn law_cutting_steps_that_work(use_regex: bool, length: usize)
    ensures
        can_cut(PreTokenizing::Bert),
        can_cut(PreTokenizing::Delimiter),
        can_cut(PreTokenizing::Metaspace),
        can_cut(PreTokenizing::Whitespace),
        can_cut(PreTokenizing::Punctuation),
        can_cut(PreTokenizing::WhitespaceSplit),
        can_cut(PreTokenizing::Digits),
        can_cut(PreTokenizing::UnicodeScripts),
        !can_cut(PreTokenizing::Split),
        can_cut(PreTokenizing::ByteLevel(use_regex)) <==> !use_regex,
        can_cut(PreTokenizing::FixedLength(length)) <==> length > 0,
{
}

/// A text can be shortened unless the parts of a long one would not go forward,
/// and lengthened up to a bound.
pub proof fn law_lengths_that_work(truncation: Truncation, padding: Padding)
    ensures
        can_truncate(None),
        can_truncate(Some(truncation)) <==> truncation.max_length == 0 || truncation.stride
            < truncation.max_length,
        can_pad(None),
        can_pad(Some(padding)) <==> (padding.length matches Some(n) ==> n <= 65_536) && (
        padding.multiple matches Some(n) ==> n <= 65_536),
{
}

proof fn lemma_reading_plain(printed: Seq<char>)
    requires
        forall|i: int| 0 <= i < printed.len() ==> #[trigger] printed[i] != '"',
    ensures
        ({
            let at = reading(printed);
            &&& !at.quoted && !at.escaped
            &&& at.first <==> exists|i: int| 0 <= i < printed.len() && #[trigger] printed[i] == 'A'
            &&& at.second <==> exists|i: int| 0 <= i < printed.len() && #[trigger] printed[i] == 'B'
            &&& at.again <==> exists|i: int, j: int|
                0 <= i < j < printed.len() && #[trigger] printed[i] == 'A' && #[trigger] printed[j]
                    == 'A'
        }),
    decreases printed.len(),
{
    if printed.len() > 0 {
        let front = printed.drop_last();
        let n = front.len() as int;
        let c = printed.last();
        assert(c == printed[n]);
        assert forall|i: int| 0 <= i < n implies #[trigger] front[i] != '"' by {
            assert(front[i] == printed[i]);
        }
        lemma_reading_plain(front);
        let was = reading(front);
        let at = reading(printed);
        if was.first {
            let i = choose|i: int| 0 <= i < n && #[trigger] front[i] == 'A';
            assert(printed[i] == 'A');
            if c == 'A' {
                assert(printed[i] == 'A' && printed[n] == 'A');
            }
        }
        if was.second {
            let i = choose|i: int| 0 <= i < n && #[trigger] front[i] == 'B';
            assert(printed[i] == 'B');
        }
        if was.again {
            let (i, j) = choose|i: int, j: int|
                0 <= i < j < n && #[trigger] front[i] == 'A' && #[trigger] front[j] == 'A';
            assert(printed[i] == 'A' && printed[j] == 'A');
        }
        assert forall|i: int| 0 <= i < printed.len() && #[trigger] printed[i] == 'A' implies at.first by {
            if i < n {
                assert(front[i] == 'A');
            }
        }
        assert forall|i: int| 0 <= i < printed.len() && #[trigger] printed[i] == 'B' implies at.second by {
            if i < n {
                assert(front[i] == 'B');
            }
        }
        assert forall|i: int, j: int|
            0 <= i < j < printed.len() && #[trigger] printed[i] == 'A' && #[trigger] printed[j]
                == 'A' implies at.again by {
            assert(front[i] == 'A');
            if j < n {
                assert(front[j] == 'A');
            }
        }
    }
}

/// A template without special tokens works exactly if it names the first text once
/// and the second one not at all.
pub proof fn law_templates_that_work(printed: Seq<char>)
    requires
        forall|i: int| 0 <= i < printed.len() ==> #[trigger] printed[i] != '"',
    ensures
        fills_in_once(printed) <==> {
            &&& exists|i: int| 0 <= i < printed.len() && #[trigger] printed[i] == 'A'
            &&& forall|i: int, j: int|
                0 <= i < j < printed.len() && #[trigger] printed[i] == 'A' ==> #[trigger] printed[j]
                    != 'A'
            &&& forall|i: int| 0 <= i < printed.len() ==> #[trigger] printed[i] != 'B'
        },
{
    lemma_reading_plain(printed);
}

} // verus!
