//! Citation markers in generated answers.

use regex::Regex;
use vstd::prelude::*;

use crate::retriever;
use crate::text;

verus! {

/// The pattern of a citation marker: a number in square brackets.
pub const CITATION_PATTERN: &'static str = "\\[(\\d+)\\]";

/// The matches of a regular expression in a text, or `None` where the pattern is
/// not one.
pub uninterp spec fn regex_matches(pattern: Seq<char>, s: Seq<char>) -> Option<Seq<Seq<char>>>;

/// Whether `s` is a citation marker with decimal digits.
pub open spec fn is_marker(s: Seq<char>) -> bool {
    &&& s.len() >= 3
    &&& s[0] == '['
    &&& s[s.len() - 1] == ']'
    &&& text::all_digits(s.subrange(1, s.len() - 1))
}

/// Whether `s` has the shape of a citation marker: an opening bracket, one
/// character or more, and a closing bracket, where every ASCII character between
/// the brackets is a digit.
pub open spec fn is_bracketed(s: Seq<char>) -> bool {
    &&& s.len() >= 3
    &&& s[0] == '['
    &&& s[s.len() - 1] == ']'
    &&& forall|i: int|
        0 < i < s.len() - 1 ==> text::is_digit(#[trigger] s[i]) || !is_ascii_char(s[i])
}

pub open spec fn is_ascii_char(c: char) -> bool {
    (c as u32) < 128
}

pub open spec fn is_ascii(s: Seq<char>) -> bool {
    forall|i: int| 0 <= i < s.len() ==> is_ascii_char(#[trigger] s[i])
}

/// Whether `part` stands at the index `p` of `s`.
pub open spec fn occurs_at(part: Seq<char>, s: Seq<char>, p: int) -> bool {
    0 <= p && p + part.len() <= s.len() && s.subrange(p, p + part.len()) == part
}

/// Whether the parts stand in `s` at the given places, one behind the other.
pub open spec fn stand_at(parts: Seq<Seq<char>>, s: Seq<char>, places: Seq<int>) -> bool {
    &&& places.len() == parts.len()
    &&& forall|i: int| 0 <= i < parts.len() ==> occurs_at(#[trigger] parts[i], s, places[i])
    &&& forall|i: int, j: int|
        0 <= i < j < parts.len() ==> (#[trigger] places[i]) + parts[i].len() <= #[trigger] places[j]
}

/// Whether `part` is found wherever it stands in `s`.
pub open spec fn found_everywhere(
    part: Seq<char>,
    parts: Seq<Seq<char>>,
    s: Seq<char>,
    places: Seq<int>,
) -> bool {
    forall|p: int| #[trigger]
        occurs_at(part, s, p) ==> exists|i: int|
            0 <= i < parts.len() && #[trigger] parts[i] == part && places[i] == p
}

/// Whether the parts are the citation markers in `s`, at the given places: all
/// have the shape of one, and a marker that is found once, or that has nothing
/// but ASCII digits, is found wherever it stands.
pub open spec fn are_markers(parts: Seq<Seq<char>>, s: Seq<char>, places: Seq<int>) -> bool {
    &&& stand_at(parts, s, places)
    &&& forall|i: int| 0 <= i < parts.len() ==> is_bracketed(#[trigger] parts[i])
    &&& forall|part: Seq<char>|
        is_marker(part) || parts.contains(part) ==> #[trigger] found_everywhere(
            part,
            parts,
            s,
            places,
        )
}

/// `Regex::new` and `Regex::find_iter` of the `regex` crate: the leftmost
/// matches of `pattern` in `text` that do not overlap, in order.
///
/// The matches are a function of the pattern and the text, and stand in the text
/// one behind the other. The citation pattern is a regular expression. What it
/// matches begins and ends with a bracket, with decimal digits between them: the
/// ASCII digits, and others of Unicode, which are not listed here. A match holds
/// no second opening bracket, so none can begin in front of a marker and reach
/// into it: every marker in the text is among the matches, at its place.
#[verifier::external_body]
fn find_all(pattern: &str, text: &str) -> (r: Option<Vec<String>>)
    ensures
        match r {
            Some(found) => regex_matches(pattern@, text@) == Some(text::views(found@)),
            None => regex_matches(pattern@, text@) is None,
        },
        r matches Some(found) ==> exists|places: Seq<int>| #[trigger]
            stand_at(text::views(found@), text@, places) && (pattern@ == CITATION_PATTERN@
                ==> are_markers(text::views(found@), text@, places)),
        pattern@ == CITATION_PATTERN@ ==> r is Some,
{
    let re = Regex::new(pattern).ok()?;
    Some(re.find_iter(text).map(|m| m.as_str().to_string()).collect())
}

/// The entries of `found` that are valid, in order.
pub open spec fn valid_only(found: Seq<Seq<char>>, valid: Seq<Seq<char>>) -> Seq<Seq<char>>
    decreases found.len(),
{
    if found.len() == 0 {
        Seq::empty()
    } else if valid.contains(found.last()) {
        valid_only(found.drop_last(), valid).push(found.last())
    } else {
        valid_only(found.drop_last(), valid)
    }
}

/// The valid markers among those found, each once, in the order of first
/// appearance.
pub open spec fn cited(found: Seq<Seq<char>>, valid: Seq<Seq<char>>) -> Seq<Seq<char>> {
    retriever::distinct(valid_only(found, valid))
}

fn is_among(list: &[String], s: &str) -> (r: bool)
    ensures
        r == text::views(list@).contains(s@),
{
    let mut i: usize = 0;
    while i < list.len()
        invariant
            i <= list@.len(),
            forall|k: int| 0 <= k < i ==> (#[trigger] list@[k])@ != s@,
        decreases list@.len() - i,
    {
        if text::same(list[i].as_str(), s) {
            assert(text::views(list@)[i as int] == s@);
            return true;
        }
        i += 1;
    }
    assert(!text::views(list@).contains(s@)) by {
        if text::views(list@).contains(s@) {
            let k = choose|k: int|
                0 <= k < text::views(list@).len() && text::views(list@)[k] == s@;
            assert(list@[k]@ == s@);
        }
    }
    false
}

/// Keeps the valid markers among those found, each once, in the order of first
/// appearance.
pub fn keep_valid(found: &Vec<String>, valid_markers: &[String]) -> (r: Vec<String>)
    ensures
        text::views(r@) == cited(text::views(found@), text::views(valid_markers@)),
{
    let ghost all = text::views(found@);
    let ghost valid = text::views(valid_markers@);
    let mut out: Vec<String> = Vec::new();
    let mut i: usize = 0;
    assert(all.take(0) =~= Seq::empty());
    assert(text::views(out@) =~= Seq::empty());
    while i < found.len()
        invariant
            i <= found@.len(),
            all == text::views(found@),
            valid == text::views(valid_markers@),
            text::views(out@) == cited(all.take(i as int), valid),
        decreases found@.len() - i,
    {
        let marker = found[i].as_str();
        let ghost before = valid_only(all.take(i as int), valid);
        let ghost after = valid_only(all.take(i + 1), valid);
        assert(all.take(i + 1).drop_last() =~= all.take(i as int));
        assert(all.take(i + 1).last() == marker@);
        if is_among(valid_markers, marker) {
            assert(after.drop_last() =~= before);
            assert(after.last() == marker@);
            if !is_among(out.as_slice(), marker) {
                let ghost now = text::views(out@);
                out.push(found[i].clone());
                assert(text::views(out@) =~= now.push(marker@));
            }
        }
        i += 1;
    }
    assert(all.take(i as int) =~= all);
    out
}

/// The markers that the citation pattern finds in an answer.
pub open spec fn markers_in(answer: Seq<char>) -> Seq<Seq<char>> {
    regex_matches(CITATION_PATTERN@, answer)->0
}

/// Whether `a` appears in `s` before `b` does.
pub open spec fn appears_before(a: Seq<char>, b: Seq<char>, s: Seq<char>) -> bool {
    exists|p: int| #[trigger]
        occurs_at(a, s, p) && forall|q: int| #[trigger] occurs_at(b, s, q) ==> p < q
}

/// Extracts the valid citation markers (`[1]`, `[2]`, ...) from an answer.
///
/// Markers that are not valid, such as `[6]` where five passages were given, are
/// dropped. A marker that appears twice is kept once. The markers come in the
/// order of their first appearance.
pub fn parse_citations(answer: &str, valid_markers: &[String]) -> (r: Vec<String>)
    ensures
        text::views(r@) == cited(markers_in(answer@), text::views(valid_markers@)),
        text::views(r@).no_duplicates(),
        forall|i: int|
            0 <= i < r@.len() ==> is_bracketed(#[trigger] r@[i]@) && text::occurs_in(
                r@[i]@,
                answer@,
            ),
        forall|part: Seq<char>|
            is_ascii(part) ==> (#[trigger] text::views(r@).contains(part) <==> text::views(
                valid_markers@,
            ).contains(part) && is_marker(part) && text::occurs_in(part, answer@)),
        forall|j: int, k: int|
            0 <= j < k < r@.len() ==> appears_before(
                #[trigger] r@[j]@,
                #[trigger] r@[k]@,
                answer@,
            ),
{
    let found = match find_all(CITATION_PATTERN, answer) {
        Some(found) => found,
        None => Vec::new(),
    };
    let r = keep_valid(&found, valid_markers);
    proof {
        let s = answer@;
        let all = text::views(found@);
        let valid = text::views(valid_markers@);
        let kept = text::views(r@);
        let places = choose|places: Seq<int>| #[trigger]
            stand_at(all, s, places) && are_markers(all, s, places);
        law_citations_are_valid(all, valid, Seq::empty());
        assert forall|i: int| 0 <= i < r@.len() implies is_bracketed(#[trigger] r@[i]@)
            && text::occurs_in(r@[i]@, s) by {
            assert(kept[i] == r@[i]@);
            assert(kept.contains(kept[i]));
            law_citations_are_valid(all, valid, kept[i]);
            let k = choose|k: int| 0 <= k < all.len() && all[k] == kept[i];
            assert(is_bracketed(all[k]));
            lemma_occurs(all[k], s, places[k]);
        }
        assert forall|part: Seq<char>| is_ascii(part) implies (#[trigger] kept.contains(part)
            <==> valid.contains(part) && is_marker(part) && text::occurs_in(part, s)) by {
            law_citations_are_valid(all, valid, part);
            if kept.contains(part) {
                let k = choose|k: int| 0 <= k < all.len() && all[k] == part;
                assert(is_bracketed(all[k]));
                lemma_occurs(all[k], s, places[k]);
                lemma_ascii_marker(part);
            }
            if is_marker(part) && text::occurs_in(part, s) {
                let (p, q) = choose|p: int, q: int|
                    0 <= p <= q <= s.len() && #[trigger] s.subrange(p, q) == part;
                assert(q == p + part.len());
                assert(found_everywhere(part, all, s, places));
                assert(occurs_at(part, s, p));
            }
        }
        assert forall|j: int, k: int| 0 <= j < k < r@.len() implies appears_before(
            #[trigger] r@[j]@,
            #[trigger] r@[k]@,
            s,
        ) by {
            assert(kept[j] == r@[j]@ && kept[k] == r@[k]@);
            assert(kept.len() == r@.len());
            law_cited_in_order(all, valid, s, places, j, k);
        }
    }
    r
}

proof fn lemma_occurs(part: Seq<char>, s: Seq<char>, p: int)
    requires
        occurs_at(part, s, p),
    ensures
        text::occurs_in(part, s),
{
    assert(s.subrange(p, p + part.len()) == part);
}

pub proof fn lemma_marker_is_ascii(part: Seq<char>)
    requires
        is_marker(part),
    ensures
        is_ascii(part),
{
    let inner = part.subrange(1, part.len() - 1);
    assert forall|i: int| 0 <= i < part.len() implies is_ascii_char(#[trigger] part[i]) by {
        if 0 < i < part.len() - 1 {
            assert(inner[i - 1] == part[i]);
            assert(text::is_digit(inner[i - 1]));
        }
    }
}

proof fn lemma_ascii_marker(part: Seq<char>)
    requires
        is_ascii(part),
        is_bracketed(part),
    ensures
        is_marker(part),
{
    let inner = part.subrange(1, part.len() - 1);
    assert forall|i: int| 0 <= i < inner.len() implies text::is_digit(#[trigger] inner[i]) by {
        assert(inner[i] == part[i + 1]);
        assert(is_ascii_char(part[i + 1]));
    }
}

/// The markers kept come in the order in which they first appear in the text.
pub proof fn law_cited_in_order(
    found: Seq<Seq<char>>,
    valid: Seq<Seq<char>>,
    s: Seq<char>,
    places: Seq<int>,
    j: int,
    k: int,
)
    requires
        are_markers(found, s, places),
        0 <= j < k < cited(found, valid).len(),
    ensures
        appears_before(cited(found, valid)[j], cited(found, valid)[k], s),
{
    let a = cited(found, valid)[j];
    let b = cited(found, valid)[k];
    let m = lemma_first_found(found, valid, j, k);
    assert(cited(found, valid).contains(b));
    law_citations_are_valid(found, valid, b);
    assert(found_everywhere(b, found, s, places));
    assert(occurs_at(found[m], s, places[m]));
    assert forall|q: int| #[trigger] occurs_at(b, s, q) implies places[m] < q by {
        let i = choose|i: int| 0 <= i < found.len() && #[trigger] found[i] == b && places[i] == q;
        assert(m < i);
        assert(is_bracketed(found[m]));
        assert(places[m] + found[m].len() <= places[i]);
    }
}

/// The marker kept as `j` is found before the marker kept as `k` is found at all.
proof fn lemma_first_found(found: Seq<Seq<char>>, valid: Seq<Seq<char>>, j: int, k: int) -> (m: int)
    requires
        0 <= j < k < cited(found, valid).len(),
    ensures
        0 <= m < found.len(),
        found[m] == cited(found, valid)[j],
        forall|i: int|
            0 <= i < found.len() && #[trigger] found[i] == cited(found, valid)[k] ==> m < i,
    decreases found.len(),
{
    let front = found.drop_last();
    let before = cited(front, valid);
    let all = cited(found, valid);
    assert(valid_only(found, valid) == valid_only(front, valid) || valid_only(found, valid).drop_last()
        =~= valid_only(front, valid));
    assert(all == before || all == before.push(found.last()));
    if k < before.len() {
        let m = lemma_first_found(front, valid, j, k);
        assert(front[m] == found[m]);
        assert forall|i: int| 0 <= i < found.len() && #[trigger] found[i] == all[k] implies m < i by {
            if i < front.len() {
                assert(front[i] == found[i]);
            }
        }
        m
    } else {
        assert(before.contains(before[j]));
        law_citations_are_valid(front, valid, before[j]);
        let m = choose|m: int| 0 <= m < front.len() && front[m] == before[j];
        law_citations_are_valid(front, valid, all[k]);
        law_citations_are_valid(found, valid, all[k]);
        assert(all.contains(all[k]));
        assert(all[k] == found.last());
        assert(!before.contains(all[k])) by {
            if before.contains(all[k]) {
                let x = choose|x: int| 0 <= x < before.len() && before[x] == all[k];
                assert(all[x] == all[k]);
            }
        }
        assert forall|i: int| 0 <= i < found.len() && #[trigger] found[i] == all[k] implies m < i by {
            if i < front.len() {
                assert(front[i] == found[i]);
                assert(front.contains(all[k]));
            }
        }
        m
    }
}

/// It does not matter in which order the valid markers are given, nor how often.
pub proof fn law_valid_markers_are_a_set(
    found: Seq<Seq<char>>,
    a: Seq<Seq<char>>,
    b: Seq<Seq<char>>,
)
    requires
        forall|m: Seq<char>| #[trigger] a.contains(m) <==> b.contains(m),
    ensures
        cited(found, a) == cited(found, b),
{
    lemma_same_valid(found, a, b);
}

proof fn lemma_same_valid(found: Seq<Seq<char>>, a: Seq<Seq<char>>, b: Seq<Seq<char>>)
    requires
        forall|m: Seq<char>| #[trigger] a.contains(m) <==> b.contains(m),
    ensures
        valid_only(found, a) == valid_only(found, b),
    decreases found.len(),
{
    if found.len() > 0 {
        lemma_same_valid(found.drop_last(), a, b);
        assert(a.contains(found.last()) <==> b.contains(found.last()));
    }
}

/// The markers kept are exactly those that were found and are valid, and none
/// is kept twice.
pub proof fn law_citations_are_valid(
    found: Seq<Seq<char>>,
    valid: Seq<Seq<char>>,
    marker: Seq<char>,
)
    ensures
        cited(found, valid).contains(marker) <==> found.contains(marker) && valid.contains(marker),
        cited(found, valid).no_duplicates(),
{
    retriever::law_distinct(valid_only(found, valid));
    lemma_valid_only(found, valid, marker);
}

proof fn lemma_valid_only(found: Seq<Seq<char>>, valid: Seq<Seq<char>>, marker: Seq<char>)
    ensures
        valid_only(found, valid).contains(marker) <==> found.contains(marker) && valid.contains(
            marker,
        ),
    decreases found.len(),
{
    if found.len() > 0 {
        let rest = found.drop_last();
        let kept = valid_only(found, valid);
        let before = valid_only(rest, valid);
        lemma_valid_only(rest, valid, marker);
        if found.contains(marker) && valid.contains(marker) {
            let k = choose|k: int| 0 <= k < found.len() && found[k] == marker;
            if k < rest.len() {
                assert(rest[k] == marker);
                assert(rest.contains(marker));
                let j = choose|j: int| 0 <= j < before.len() && before[j] == marker;
                assert(kept[j] == marker);
            } else {
                assert(kept[kept.len() - 1] == marker);
            }
        }
        if kept.contains(marker) {
            let j = choose|j: int| 0 <= j < kept.len() && kept[j] == marker;
            if j < before.len() {
                assert(before[j] == marker);
                assert(before.contains(marker));
                let k = choose|k: int| 0 <= k < rest.len() && rest[k] == marker;
                assert(found[k] == marker);
            } else {
                assert(found[found.len() - 1] == marker);
            }
        }
    }
}

} // verus!
