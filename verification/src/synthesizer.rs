//! Cited answers from retrieved passages.

use vstd::prelude::*;

use crate::citation;
use crate::error::{DocqError, Result};
use crate::models::{Answer, Citation, SearchHit};
use crate::prompt;
use crate::text;
use crate::verbose::Verbose;

verus! {

/// How many passages an answer is made from.
pub const CONTEXT_HITS: usize = 5;

// ---- markers ----

/// The markers `[1]` to `[n]`.
pub open spec fn markers_up_to(n: nat) -> Seq<Seq<char>> {
    Seq::new(n, |i: int| prompt::marker_text((i + 1) as nat))
}

/// The markers `[1]` to `[n]`.
pub fn valid_markers(n: usize) -> (r: Vec<String>)
    ensures
        text::views(r@) == markers_up_to(n as nat),
{
    let mut out: Vec<String> = Vec::new();
    let mut i: usize = 0;
    while i < n
        invariant
            i <= n,
            text::views(out@) == markers_up_to(i as nat),
        decreases n - i,
    {
        let ghost before = text::views(out@);
        out.push(prompt::marker(i + 1));
        assert(text::views(out@) =~= before.push(prompt::marker_text((i + 1) as nat)));
        assert(text::views(out@) =~= markers_up_to((i + 1) as nat));
        i += 1;
    }
    out
}

/// The first index from `lo` on, up to `hi`, without an opening bracket.
pub open spec fn after_brackets(s: Seq<char>, lo: int, hi: int) -> int
    decreases hi - lo,
{
    if lo < hi && s[lo] == '[' {
        after_brackets(s, lo + 1, hi)
    } else {
        lo
    }
}

/// The last index down from `hi`, down to `lo`, behind anything but a closing
/// bracket.
pub open spec fn before_brackets(s: Seq<char>, lo: int, hi: int) -> int
    decreases hi - lo,
{
    if lo < hi && s[hi - 1] == ']' {
        before_brackets(s, lo, hi - 1)
    } else {
        hi
    }
}

/// The number in a marker, without the brackets around it.
pub open spec fn number_in(s: Seq<char>) -> Option<usize> {
    let lo = after_brackets(s, 0, s.len() as int);
    let hi = before_brackets(s, lo, s.len() as int);
    text::parsed(s.subrange(lo, hi))
}

/// The number in a marker.
pub fn marker_number(marker: &str) -> (r: Option<usize>)
    ensures
        r == number_in(marker@),
{
    let chars = text::chars_of(marker);
    let n: usize = chars.len();
    let mut lo: usize = 0;
    while lo < n && chars[lo] == '['
        invariant
            lo <= n == chars@.len(),
            after_brackets(chars@, lo as int, n as int) == after_brackets(chars@, 0, n as int),
        decreases n - lo,
    {
        lo += 1;
    }
    let mut hi: usize = n;
    while lo < hi && chars[hi - 1] == ']'
        invariant
            lo <= hi <= n == chars@.len(),
            before_brackets(chars@, lo as int, hi as int) == before_brackets(
                chars@,
                lo as int,
                n as int,
            ),
        decreases hi,
    {
        hi -= 1;
    }
    text::parse_usize(&chars, lo, hi)
}

/// The number in the marker of the passage `n` is `n`.
pub proof fn law_marker_round_trip(n: usize)
    ensures
        number_in(prompt::marker_text(n as nat)) == Some(n),
        citation::is_marker(prompt::marker_text(n as nat)),
{
    reveal_strlit("[");
    reveal_strlit("]");
    let d = text::decimal(n as nat);
    let m = prompt::marker_text(n as nat);
    let len = m.len() as int;
    text::lemma_decimal_value(n as nat);
    text::law_decimal_round_trip(n);
    assert(m[0] == '[');
    assert(m[len - 1] == ']');
    assert(m[1] == d[0]);
    assert(m[len - 2] == d[d.len() - 1]);
    assert(text::is_digit(d[0]));
    assert(text::is_digit(d[d.len() - 1]));
    assert(after_brackets(m, 1, len) == 1);
    assert(after_brackets(m, 0, len) == 1);
    assert(before_brackets(m, 1, len - 1) == len - 1);
    assert(before_brackets(m, 1, len) == len - 1);
    assert(m.subrange(1, len - 1) =~= d);
}

// ---- citations ----

/// What a citation says.
pub struct CitationView {
    pub marker: Seq<char>,
    pub source: Seq<char>,
}

impl View for Citation {
    type V = CitationView;

    open spec fn view(&self) -> CitationView {
        CitationView { marker: self.marker@, source: self.source@ }
    }
}

pub open spec fn citation_views(list: Seq<Citation>) -> Seq<CitationView> {
    list.map_values(|c: Citation| c@)
}

/// The citations for the given markers, in order. A marker without a number, or
/// with one that no passage has, is left out.
pub open spec fn citations_for(markers: Seq<Seq<char>>, hits: Seq<SearchHit>) -> Seq<CitationView>
    decreases markers.len(),
{
    if markers.len() == 0 {
        Seq::empty()
    } else {
        let rest = citations_for(markers.drop_last(), hits);
        match number_in(markers.last()) {
            Some(n) => if 1 <= n <= hits.len() {
                rest.push(
                    CitationView {
                        marker: markers.last(),
                        source: prompt::source_text(hits[n - 1]),
                    },
                )
            } else {
                rest
            },
            None => rest,
        }
    }
}

/// Looks up the source of each marker: `[n]` stands for the passage `n`.
pub fn back_fill(markers: &Vec<String>, hits: &[SearchHit]) -> (r: Vec<Citation>)
    ensures
        citation_views(r@) == citations_for(text::views(markers@), hits@),
{
    let ghost all = text::views(markers@);
    let mut out: Vec<Citation> = Vec::new();
    let mut i: usize = 0;
    assert(all.take(0) =~= Seq::empty());
    assert(citation_views(out@) =~= Seq::empty());
    while i < markers.len()
        invariant
            i <= markers@.len(),
            all == text::views(markers@),
            citation_views(out@) == citations_for(all.take(i as int), hits@),
        decreases markers@.len() - i,
    {
        assert(all.take(i + 1).drop_last() =~= all.take(i as int));
        assert(all.take(i + 1).last() == markers@[i as int]@);
        match marker_number(markers[i].as_str()) {
            Some(n) => {
                if 1 <= n && n <= hits.len() {
                    let ghost before = citation_views(out@);
                    let c = Citation {
                        marker: markers[i].clone(),
                        source: prompt::source_of(&hits[n - 1]),
                    };
                    out.push(c);
                    assert(citation_views(out@) =~= before.push(c@));
                }
            },
            None => {},
        }
        i += 1;
    }
    assert(all.take(i as int) =~= all);
    out
}

/// The markers that an answer cites, where `n` passages were given.
pub open spec fn cited_markers(answer: Seq<char>, n: nat) -> Seq<Seq<char>> {
    citation::cited(citation::markers_in(answer), markers_up_to(n))
}

/// The sources that an answer cites.
pub fn cite(answer: &str, hits: &[SearchHit]) -> (r: Vec<Citation>)
    ensures
        citation_views(r@) == citations_for(cited_markers(answer@, hits@.len()), hits@),
        forall|i: int| 0 <= i < r@.len() ==> text::occurs_in(#[trigger] r@[i].marker@, answer@),
        forall|n: usize|
            1 <= n <= hits@.len() && #[trigger] text::occurs_in(
                prompt::marker_text(n as nat),
                answer@,
            ) ==> cited_markers(answer@, hits@.len()).contains(prompt::marker_text(n as nat)),
{
    let valid = valid_markers(hits.len());
    let markers = citation::parse_citations(answer, valid.as_slice());
    let r = back_fill(&markers, hits);
    proof {
        let all = text::views(markers@);
        assert(hits.len() == hits@.len());
        assert forall|i: int| 0 <= i < r@.len() implies text::occurs_in(
            #[trigger] r@[i].marker@,
            answer@,
        ) by {
            let k = lemma_citation_marker(all, hits@, i);
            assert(citation_views(r@)[i] == r@[i]@);
            assert(all[k] == markers@[k]@);
        }
        assert forall|n: usize|
            1 <= n <= hits@.len() && #[trigger] text::occurs_in(
                prompt::marker_text(n as nat),
                answer@,
            ) implies cited_markers(answer@, hits@.len()).contains(
            prompt::marker_text(n as nat),
        ) by {
            law_marker_round_trip(n);
            let m = prompt::marker_text(n as nat);
            assert(markers_up_to(hits@.len())[n - 1] == m);
            assert(text::views(valid@).contains(m));
            citation::lemma_marker_is_ascii(m);
            assert(text::views(markers@).contains(m));
        }
    }
    r
}

proof fn lemma_citation_marker(markers: Seq<Seq<char>>, hits: Seq<SearchHit>, i: int) -> (k: int)
    requires
        0 <= i < citations_for(markers, hits).len(),
    ensures
        0 <= k < markers.len(),
        citations_for(markers, hits)[i].marker == markers[k],
        number_in(markers[k]) is Some,
        1 <= number_in(markers[k])->0 <= hits.len(),
        citations_for(markers, hits)[i].source == prompt::source_text(
            hits[number_in(markers[k])->0 - 1],
        ),
    decreases markers.len(),
{
    let rest = citations_for(markers.drop_last(), hits);
    if i < rest.len() {
        let k = lemma_citation_marker(markers.drop_last(), hits, i);
        assert(markers.drop_last()[k] == markers[k]);
        k
    } else {
        markers.len() - 1
    }
}

/// Each citation of an answer points at the passage that its marker names: it
/// is `[n]` with the source of the passage `n`, for some passage that was given.
pub proof fn law_citations_point_at_passages(answer: Seq<char>, hits: Seq<SearchHit>, i: int)
    requires
        0 <= i < citations_for(cited_markers(answer, hits.len()), hits).len(),
        hits.len() <= usize::MAX,
    ensures
        ({
            let c = citations_for(cited_markers(answer, hits.len()), hits)[i];
            exists|n: int|
                #![trigger hits[n - 1]]
                1 <= n <= hits.len() && c.marker == prompt::marker_text(n as nat) && c.source
                    == prompt::source_text(hits[n - 1])
        }),
{
    let markers = cited_markers(answer, hits.len());
    let valid = markers_up_to(hits.len());
    let k = lemma_citation_marker(markers, hits, i);
    assert(markers.contains(markers[k]));
    citation::law_citations_are_valid(citation::markers_in(answer), valid, markers[k]);
    let j = choose|j: int| 0 <= j < valid.len() && valid[j] == markers[k];
    let n = j + 1;
    assert(valid[j] == prompt::marker_text(n as nat));
    law_marker_round_trip(n as usize);
    assert(hits[n - 1] == hits[number_in(markers[k])->0 - 1]);
}

/// No marker that is cited gets lost on the way to its source: an answer has as
/// many citations as it has different valid markers.
pub proof fn law_every_marker_has_a_source(answer: Seq<char>, hits: Seq<SearchHit>)
    requires
        hits.len() <= usize::MAX,
    ensures
        citations_for(cited_markers(answer, hits.len()), hits).len() == cited_markers(
            answer,
            hits.len(),
        ).len(),
{
    let markers = cited_markers(answer, hits.len());
    assert forall|k: int| 0 <= k < markers.len() implies number_in(#[trigger] markers[k]) is Some
        && 1 <= number_in(markers[k])->0 <= hits.len() by {
        let valid = markers_up_to(hits.len());
        assert(markers.contains(markers[k]));
        citation::law_citations_are_valid(citation::markers_in(answer), valid, markers[k]);
        let j = choose|j: int| 0 <= j < valid.len() && valid[j] == markers[k];
        law_marker_round_trip((j + 1) as usize);
    }
    lemma_all_filled(markers, hits);
}

proof fn lemma_all_filled(markers: Seq<Seq<char>>, hits: Seq<SearchHit>)
    requires
        forall|k: int|
            0 <= k < markers.len() ==> number_in(#[trigger] markers[k]) is Some && 1 <= number_in(
                markers[k],
            )->0 <= hits.len(),
    ensures
        citations_for(markers, hits).len() == markers.len(),
    decreases markers.len(),
{
    if markers.len() > 0 {
        let rest = markers.drop_last();
        assert forall|k: int| 0 <= k < rest.len() implies number_in(#[trigger] rest[k]) is Some && 1
            <= number_in(rest[k])->0 <= hits.len() by {
            assert(rest[k] == markers[k]);
        }
        lemma_all_filled(rest, hits);
        assert(markers.last() == markers[markers.len() - 1]);
    }
}

// ---- asking ----

/// How answers are made.
pub struct SynthesizerConfig {
    pub verbose: Verbose,
}

/// Makes cited answers.
pub struct Synthesizer {
    verbose: Verbose,
}

/// Answering one question. The variants say what the run waits for.
pub enum Ask {
    Ready { query: String },
    Retrieving { query: String },
    Generating { hits: Vec<SearchHit> },
    Done,
}

/// What came of the last action of an [`Ask`].
pub enum AskInput {
    Start,
    Retrieved(Result<Vec<SearchHit>>),
    Generated(Result<String>),
}

/// What an [`Ask`] wants done.
pub enum AskAction {
    Search { query: String, top_k: usize },
    Generate { prompt: String },
    Return(Result<Answer>),
    Stop,
}

/// The state and the action of an [`Ask`] after `input`.
pub open spec fn ask_steps(before: Ask, input: AskInput, after: Ask, action: AskAction) -> bool {
    match (before, input) {
        (Ask::Ready { query }, AskInput::Start) => {
            &&& after == (Ask::Retrieving { query })
            &&& action matches AskAction::Search { query: q, top_k }
            &&& q@ == query@
            &&& top_k == CONTEXT_HITS
        },
        (Ask::Retrieving { query }, AskInput::Retrieved(Ok(hits))) => {
            if hits@.len() == 0 {
                &&& after == Ask::Done
                &&& action matches AskAction::Return(Ok(answer))
                &&& answer.text@.len() == 0
                &&& answer.citations@.len() == 0
            } else {
                &&& after == (Ask::Generating { hits })
                &&& action matches AskAction::Generate { prompt: p }
                &&& p@ == prompt::prompt_text(query@, hits@)
            }
        },
        (Ask::Generating { hits }, AskInput::Generated(Ok(raw))) => {
            &&& after == Ask::Done
            &&& action matches AskAction::Return(Ok(answer))
            &&& answer.text == raw
            &&& citation_views(answer.citations@) == citations_for(
                cited_markers(raw@, hits@.len()),
                hits@,
            )
        },
        (Ask::Retrieving { .. }, AskInput::Retrieved(Err(e))) => {
            after == Ask::Done && action == AskAction::Return(Err(e))
        },
        (Ask::Generating { .. }, AskInput::Generated(Err(e))) => {
            after == Ask::Done && action == AskAction::Return(Err(e))
        },
        _ => after == Ask::Done && action == AskAction::Stop,
    }
}

impl Synthesizer {
    pub closed spec fn is_verbose(&self) -> Verbose {
        self.verbose
    }

    pub fn new(config: SynthesizerConfig) -> (r: Self)
        ensures
            r.is_verbose() == config.verbose,
    {
        Synthesizer { verbose: config.verbose }
    }

    /// How progress is shown.
    pub fn verbose(&self) -> (r: Verbose)
        ensures
            r == self.is_verbose(),
    {
        self.verbose
    }

    /// Starts answering a question: search for passages, have the language
    /// model answer from them, and link the markers in the answer to their
    /// sources. Without passages the answer is empty, and the model is not
    /// asked.
    pub fn ask(&self, query: &str) -> (r: Ask)
        ensures
            r matches Ask::Ready { query: q } && q@ == query@,
    {
        Ask::Ready { query: query.to_string() }
    }
}

impl Ask {
    /// Takes the next step.
    pub fn next(self, input: AskInput) -> (r: (Ask, AskAction))
        ensures
            ask_steps(self, input, r.0, r.1),
    {
        match (self, input) {
            (Ask::Ready { query }, AskInput::Start) => {
                let asked = query.clone();
                (
                    Ask::Retrieving { query },
                    AskAction::Search { query: asked, top_k: CONTEXT_HITS },
                )
            },
            (Ask::Retrieving { query }, AskInput::Retrieved(result)) => match result {
                Ok(hits) => {
                    if hits.len() == 0 {
                        (
                            Ask::Done,
                            AskAction::Return(
                                Ok(Answer { text: String::new(), citations: Vec::new() }),
                            ),
                        )
                    } else {
                        let prompt = prompt::build_ask_prompt(query.as_str(), hits.as_slice());
                        (Ask::Generating { hits }, AskAction::Generate { prompt })
                    }
                },
                Err(e) => (Ask::Done, AskAction::Return(Err(e))),
            },
            (Ask::Generating { hits }, AskInput::Generated(result)) => match result {
                Ok(raw) => {
                    let citations = cite(raw.as_str(), hits.as_slice());
                    (Ask::Done, AskAction::Return(Ok(Answer { text: raw, citations })))
                },
                Err(e) => (Ask::Done, AskAction::Return(Err(e))),
            },
            _ => (Ask::Done, AskAction::Stop),
        }
    }
}

// ---- what asking guarantees ----

/// For a question its five best passages are searched for, and the question is
/// searched for as it is.
pub proof fn law_five_passages_are_searched_for(query: String, after: Ask, action: AskAction)
    requires
        ask_steps(Ask::Ready { query }, AskInput::Start, after, action),
    ensures
        after == (Ask::Retrieving { query }),
        action matches AskAction::Search { query: asked, top_k } && asked@ == query@ && top_k == 5,
{
}

/// Without passages the answer is empty and the model is not asked; with passages
/// the model is asked the question with all of them.
pub proof fn law_model_is_asked_with_passages(
    query: String,
    hits: Vec<SearchHit>,
    after: Ask,
    action: AskAction,
)
    requires
        ask_steps(Ask::Retrieving { query }, AskInput::Retrieved(Ok(hits)), after, action),
    ensures
        hits@.len() == 0 ==> after == Ask::Done && (action matches AskAction::Return(Ok(answer))
            && answer.text@.len() == 0 && answer.citations@.len() == 0),
        hits@.len() > 0 ==> after == (Ask::Generating { hits }) && (
        action matches AskAction::Generate { prompt: asked } && asked@ == prompt::prompt_text(
            query@,
            hits@,
        )),
{
}

/// The answer is the text of the model, with a citation for each passage that it
/// names: every citation is `[n]` for one of the passages, with where that passage
/// comes from, and there are as many as the text has different markers of
/// passages. The result gives the passage of each citation.
pub proof fn law_answer_cites_its_passages(
    hits: Vec<SearchHit>,
    raw: String,
    after: Ask,
    action: AskAction,
) -> (of: Seq<int>)
    requires
        ask_steps(Ask::Generating { hits }, AskInput::Generated(Ok(raw)), after, action),
        hits@.len() <= usize::MAX,
    ensures
        after == Ask::Done,
        action matches AskAction::Return(Ok(answer)) && {
            &&& answer.text == raw
            &&& answer.citations@.len() == cited_markers(raw@, hits@.len()).len()
            &&& of.len() == answer.citations@.len()
            &&& forall|i: int|
                0 <= i < of.len() ==> {
                    let c = answer.citations@[i];
                    let n = #[trigger] of[i];
                    &&& 1 <= n <= hits@.len()
                    &&& c.marker@ == seq!['['] + text::decimal(n as nat) + seq![']']
                    &&& c.source@ == hits@[n - 1].file_path@ + " (bytes "@ + text::decimal(
                        hits@[n - 1].chunk.byte_range.start as nat,
                    ) + "-"@ + text::decimal(hits@[n - 1].chunk.byte_range.end as nat) + ")"@
                }
        },
{
    let list = citations_for(cited_markers(raw@, hits@.len()), hits@);
    let of = Seq::new(
        list.len(),
        |i: int|
            choose|n: int|
                #![trigger hits@[n - 1]]
                1 <= n <= hits@.len() && list[i].marker == prompt::marker_text(n as nat)
                    && list[i].source == prompt::source_text(hits@[n - 1]),
    );
    law_every_marker_has_a_source(raw@, hits@);
    if let AskAction::Return(Ok(answer)) = action {
        assert(citation_views(answer.citations@).len() == answer.citations@.len());
        assert forall|i: int| 0 <= i < of.len() implies {
            let c = answer.citations@[i];
            let n = #[trigger] of[i];
            &&& 1 <= n <= hits@.len()
            &&& c.marker@ == seq!['['] + text::decimal(n as nat) + seq![']']
            &&& c.source@ == prompt::source_text(hits@[n - 1])
        } by {
            law_citations_point_at_passages(raw@, hits@, i);
            assert(citation_views(answer.citations@)[i] == answer.citations@[i]@);
            prompt::law_marker_is_bracketed(of[i] as nat);
        }
    }
    of
}

/// What fails on the way is returned as it is.
pub proof fn law_errors_end_the_question(
    before: Ask,
    input: AskInput,
    after: Ask,
    action: AskAction,
)
    requires
        ask_steps(before, input, after, action),
    ensures
        input matches AskInput::Retrieved(Err(e)) ==> before is Retrieving ==> after == Ask::Done
            && action == AskAction::Return(Err(e)),
        input matches AskInput::Generated(Err(e)) ==> before is Generating ==> after == Ask::Done
            && action == AskAction::Return(Err(e)),
{
}

proof fn lemma_brackets_shift(s: Seq<char>, lo: int)
    requires
        0 <= lo <= s.len(),
    ensures
        after_brackets(seq!['['] + s, lo + 1, s.len() + 1int) == after_brackets(
            s,
            lo,
            s.len() as int,
        ) + 1,
        lo <= after_brackets(s, lo, s.len() as int) <= s.len(),
    decreases s.len() - lo,
{
    let t = seq!['['] + s;
    if lo < s.len() {
        assert(t[lo + 1] == s[lo]);
        if s[lo] == '[' {
            lemma_brackets_shift(s, lo + 1);
        }
    }
}

proof fn lemma_ends_shift(s: Seq<char>, lo: int, hi: int)
    requires
        0 <= lo <= hi <= s.len(),
    ensures
        before_brackets(seq!['['] + s, lo + 1, hi + 1) == before_brackets(s, lo, hi) + 1,
        lo <= before_brackets(s, lo, hi) <= hi,
    decreases hi - lo,
{
    let t = seq!['['] + s;
    if lo < hi {
        assert(t[hi] == s[hi - 1]);
        if s[hi - 1] == ']' {
            lemma_ends_shift(s, lo, hi - 1);
        }
    }
}

proof fn lemma_brackets_prefix(s: Seq<char>, lo: int)
    requires
        0 <= lo <= s.len(),
    ensures
        after_brackets(s.push(']'), lo, s.len() + 1int) == after_brackets(s, lo, s.len() as int),
        lo <= after_brackets(s, lo, s.len() as int) <= s.len(),
    decreases s.len() - lo,
{
    let t = s.push(']');
    if lo < s.len() {
        assert(t[lo] == s[lo]);
        if s[lo] == '[' {
            lemma_brackets_prefix(s, lo + 1);
        }
    } else {
        assert(t[lo] == ']');
    }
}

proof fn lemma_ends_prefix(s: Seq<char>, lo: int, hi: int)
    requires
        0 <= lo <= hi <= s.len(),
    ensures
        before_brackets(s.push(']'), lo, hi) == before_brackets(s, lo, hi),
        lo <= before_brackets(s, lo, hi) <= hi,
    decreases hi - lo,
{
    if lo < hi {
        assert(s.push(']')[hi - 1] == s[hi - 1]);
        if s[hi - 1] == ']' {
            lemma_ends_prefix(s, lo, hi - 1);
        }
    }
}

/// The number in a marker does not depend on the brackets around it, opening ones
/// in front and closing ones behind: it is the number that stands between them.
pub proof fn law_brackets_do_not_count(s: Seq<char>)
    ensures
        number_in(seq!['['] + s) == number_in(s),
        number_in(s.push(']')) == number_in(s),
        s.len() > 0 && s[0] != '[' && s.last() != ']' ==> number_in(s) == text::parsed(s),
{
    let n = s.len() as int;
    let lo = after_brackets(s, 0, n);
    let a = seq!['['] + s;
    lemma_brackets_shift(s, 0);
    assert(a[0] == '[');
    assert(after_brackets(a, 0, n + 1) == lo + 1);
    lemma_ends_shift(s, lo, n);
    let hi = before_brackets(s, lo, n);
    assert(a.subrange(lo + 1, hi + 1) =~= s.subrange(lo, hi));
    let b = s.push(']');
    lemma_brackets_prefix(s, 0);
    lemma_ends_prefix(s, lo, n);
    assert(b[n] == ']');
    assert(before_brackets(b, lo, n + 1) == hi);
    assert(b.subrange(lo, hi) =~= s.subrange(lo, hi));
    if n > 0 && s[0] != '[' && s.last() != ']' {
        assert(s.subrange(0, n) =~= s);
    }
}

/// Markers are looked up in order, and none is left out that names a passage: one
/// whose number is `n` gives the source of the passage `n`, and others give
/// nothing. The result gives the marker that each citation comes from.
pub proof fn law_markers_are_looked_up(markers: Seq<Seq<char>>, hits: Seq<SearchHit>) -> (from: Seq<
    int,
>)
    ensures
        from.len() == citations_for(markers, hits).len(),
        forall|i: int, j: int| 0 <= i < j < from.len() ==> #[trigger] from[i] < #[trigger] from[j],
        forall|i: int|
            0 <= i < from.len() ==> {
                let c = citations_for(markers, hits)[i];
                &&& 0 <= (#[trigger] from[i]) < markers.len()
                &&& c.marker == markers[from[i]]
                &&& number_in(markers[from[i]]) matches Some(n)
                &&& 1 <= n <= hits.len()
                &&& c.source == prompt::source_text(hits[n - 1])
            },
        forall|k: int|
            0 <= k < markers.len() ==> (number_in(#[trigger] markers[k]) matches Some(n) && 1 <= n
                <= hits.len()) ==> from.contains(k),
    decreases markers.len(),
{
    if markers.len() == 0 {
        Seq::empty()
    } else {
        let front = markers.drop_last();
        let last = markers.len() - 1;
        let places = law_markers_are_looked_up(front, hits);
        let rest = citations_for(front, hits);
        let all = citations_for(markers, hits);
        let taken = number_in(markers.last()) matches Some(n) && 1 <= n <= hits.len();
        let from = if taken {
            places.push(last)
        } else {
            places
        };
        assert forall|i: int| 0 <= i < from.len() implies {
            let c = all[i];
            &&& 0 <= (#[trigger] from[i]) < markers.len()
            &&& c.marker == markers[from[i]]
            &&& number_in(markers[from[i]]) matches Some(n)
            &&& 1 <= n <= hits.len()
            &&& c.source == prompt::source_text(hits[n - 1])
        } by {
            if i < places.len() {
                assert(from[i] == places[i]);
                assert(front[places[i]] == markers[places[i]]);
                assert(all[i] == rest[i]);
            }
        }
        assert forall|k: int| 0 <= k < markers.len() && (number_in(
            #[trigger] markers[k],
        ) matches Some(n) && 1 <= n <= hits.len()) implies from.contains(k) by {
            if k < last {
                assert(front[k] == markers[k]);
                assert(places.contains(k));
                let i = choose|i: int| 0 <= i < places.len() && places[i] == k;
                assert(from[i] == k);
            } else {
                assert(from[places.len() as int] == k);
            }
        }
        from
    }
}

} // verus!
