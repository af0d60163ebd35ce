//! Hybrid retrieval: keyword and vector recall, fused and reranked.

use vstd::hash_map::StringHashMap;
use vstd::prelude::*;

use crate::chunker;
use crate::models::{Chunk, ScoreExplain, ScoredChunk, ScoredId, SearchHit};
use crate::ranking;
use crate::score::Score;
use crate::text;

verus! {

// ---- full-text queries ----

/// `s` with every double quote doubled.
pub open spec fn doubled_quotes(s: Seq<char>) -> Seq<char>
    decreases s.len(),
{
    if s.len() == 0 {
        Seq::empty()
    } else if s.last() == '"' {
        doubled_quotes(s.drop_last()) + seq!['"', '"']
    } else {
        doubled_quotes(s.drop_last()) + seq![s.last()]
    }
}

/// `s` as a quoted full-text token.
pub open spec fn quoted(s: Seq<char>) -> Seq<char> {
    seq!['"'] + doubled_quotes(s) + seq!['"']
}

/// The whitespace-separated tokens of `s`.
pub open spec fn tokens_of(s: Seq<char>) -> Seq<Seq<char>> {
    chunker::word_spans(s, 0, s.len() as int).map_values(|p: (int, int)| s.subrange(p.0, p.1))
}

/// The quoted tokens of `s`.
pub open spec fn quoted_tokens(s: Seq<char>) -> Seq<Seq<char>> {
    tokens_of(s).map_values(|t: Seq<char>| quoted(t))
}

/// `s` with each of its tokens quoted, and one space between them.
pub open spec fn sanitized(s: Seq<char>) -> Seq<char> {
    text::joined(quoted_tokens(s), seq![' '])
}

/// Makes a literal of each token of a full-text query, so that characters such
/// as `-`, `:`, `(`, `)` and `"` are not read as query syntax: tokens are split
/// at whitespace, their double quotes are doubled, and each is put in double
/// quotes.
pub fn sanitize_fts5_query(query: &str) -> (r: String)
    ensures
        r@ == sanitized(query@),
{
    let chars = text::chars_of(query);
    let spans = chunker::split_words(&chars, 0, chars.len());
    let ghost all = chunker::word_spans(query@, 0, query@.len() as int);
    proof {
        chunker::lemma_words_between(query@, 0, query@.len() as int);
    }
    let mut parts: Vec<String> = Vec::new();
    let mut k: usize = 0;
    while k < spans.len()
        invariant
            k <= spans@.len(),
            chars@ == query@,
            all == chunker::span_views(spans@),
            chunker::spans_between(all, 0, query@.len() as int),
            parts@.len() == k,
            forall|j: int|
                0 <= j < k ==> (#[trigger] parts@[j])@ == quoted(
                    query@.subrange(all[j].0, all[j].1),
                ),
        decreases spans@.len() - k,
    {
        assert(all[k as int] == spans@[k as int]@);
        parts.push(quote(&chars, spans[k].start, spans[k].end));
        k += 1;
    }
    proof {
        assert(all.len() == spans@.len());
        assert(text::views(parts@) =~= quoted_tokens(query@));
        reveal_strlit(" ");
        assert(" "@ =~= seq![' ']);
    }
    text::join(&parts, " ")
}

fn quote(chars: &Vec<char>, lo: usize, hi: usize) -> (r: String)
    requires
        lo <= hi <= chars@.len(),
    ensures
        r@ == quoted(chars@.subrange(lo as int, hi as int)),
{
    let ghost s = chars@.subrange(lo as int, hi as int);
    let mut out = String::new();
    out.push('"');
    let mut i: usize = lo;
    assert(s.take(0) =~= Seq::empty());
    assert(out@ =~= seq!['"'] + doubled_quotes(s.take(0)));
    while i < hi
        invariant
            lo <= i <= hi <= chars@.len(),
            s == chars@.subrange(lo as int, hi as int),
            out@ == seq!['"'] + doubled_quotes(s.take(i - lo)),
        decreases hi - i,
    {
        let c: char = chars[i];
        let ghost before = out@;
        proof {
            assert(s.take(i - lo + 1).drop_last() =~= s.take(i - lo));
            assert(s.take(i - lo + 1).last() == c);
        }
        if c == '"' {
            out.push('"');
        }
        out.push(c);
        assert(out@ =~= seq!['"'] + doubled_quotes(s.take(i - lo + 1)));
        i += 1;
    }
    assert(s.take(i - lo) =~= s);
    out.push('"');
    assert(out@ =~= quoted(s));
    out
}

/// Removes one of each two double quotes in a row.
pub open spec fn halved_quotes(s: Seq<char>) -> Seq<char>
    decreases s.len(),
{
    if s.len() == 0 {
        Seq::empty()
    } else if s.len() >= 2 && s.last() == '"' && s[s.len() - 2] == '"' {
        halved_quotes(s.drop_last().drop_last()).push('"')
    } else {
        halved_quotes(s.drop_last()).push(s.last())
    }
}

/// Quoting loses nothing: what stands between the outer quotes, with double
/// quotes halved again, is the token.
pub proof fn law_quoting_is_literal(s: Seq<char>)
    ensures
        quoted(s).len() >= 2,
        halved_quotes(quoted(s).subrange(1, quoted(s).len() - 1)) == s,
{
    assert(quoted(s).subrange(1, quoted(s).len() - 1) =~= doubled_quotes(s));
    lemma_halved_doubled(s);
}

proof fn lemma_halved_doubled(s: Seq<char>)
    ensures
        halved_quotes(doubled_quotes(s)) == s,
    decreases s.len(),
{
    if s.len() > 0 {
        lemma_halved_doubled(s.drop_last());
        let d = doubled_quotes(s);
        let rest = doubled_quotes(s.drop_last());
        if s.last() == '"' {
            assert(d.drop_last().drop_last() =~= rest);
        } else {
            assert(d.drop_last() =~= rest);
        }
        assert(halved_quotes(d) =~= s.drop_last().push(s.last()));
        assert(s.drop_last().push(s.last()) =~= s);
    } else {
        assert(halved_quotes(doubled_quotes(s)) =~= s);
    }
}

// ---- what sanitizing guarantees ----

/// The whitespace-separated tokens of `lo..hi`.
spec fn tokens_in(s: Seq<char>, lo: int, hi: int) -> Seq<Seq<char>> {
    chunker::word_spans(s, lo, hi).map_values(|p: (int, int)| s.subrange(p.0, p.1))
}

proof fn lemma_next_ws_is(s: Seq<char>, from: int, hi: int, ws: bool, at: int)
    requires
        0 <= from <= at <= hi <= s.len(),
        forall|k: int| from <= k < at ==> text::is_ws(#[trigger] s[k]) != ws,
        at < hi ==> text::is_ws(s[at]) == ws,
    ensures
        chunker::next_ws(s, from, hi, ws) == at,
    decreases hi - from,
{
    if from < at {
        lemma_next_ws_is(s, from + 1, hi, ws, at);
    }
}

/// The tokens on both sides of a whitespace character are the tokens of the
/// whole.
proof fn lemma_spans_split(s: Seq<char>, lo: int, m: int, hi: int)
    requires
        0 <= lo <= m < hi <= s.len(),
        text::is_ws(s[m]),
    ensures
        chunker::word_spans(s, lo, hi) == chunker::word_spans(s, lo, m) + chunker::word_spans(
            s,
            m + 1,
            hi,
        ),
    decreases hi - lo,
{
    let a = chunker::next_ws(s, lo, hi, false);
    chunker::lemma_next_ws(s, lo, hi, false);
    if a > m {
        lemma_next_ws_is(s, lo, m, false, m);
        lemma_next_ws_is(s, m + 1, hi, false, a);
        assert(chunker::next_ws(s, m, m, true) == m);
        assert(chunker::word_spans(s, lo, m) =~= Seq::empty());
        assert(chunker::word_spans(s, lo, hi) =~= chunker::word_spans(s, m + 1, hi));
    } else {
        let b = chunker::next_ws(s, a, hi, true);
        chunker::lemma_next_ws(s, a, hi, true);
        assert(b <= m);
        lemma_next_ws_is(s, lo, m, false, a);
        lemma_next_ws_is(s, a, m, true, b);
        lemma_spans_split(s, b, m, hi);
        assert(chunker::word_spans(s, lo, hi) =~= seq![(a, b)] + chunker::word_spans(s, b, hi));
        assert(chunker::word_spans(s, lo, m) =~= seq![(a, b)] + chunker::word_spans(s, b, m));
    }
}

/// The tokens of a stretch do not depend on where it stands.
proof fn lemma_tokens_moved(s: Seq<char>, lo: int, hi: int, t: Seq<char>, d: int)
    requires
        0 <= lo <= hi <= s.len(),
        0 <= lo + d,
        hi + d <= t.len(),
        forall|k: int| lo <= k < hi ==> #[trigger] s[k] == t[k + d],
    ensures
        tokens_in(s, lo, hi) == tokens_in(t, lo + d, hi + d),
    decreases hi - lo,
{
    let a = chunker::next_ws(s, lo, hi, false);
    let b = chunker::next_ws(s, a, hi, true);
    chunker::lemma_next_ws(s, lo, hi, false);
    chunker::lemma_next_ws(s, a, hi, true);
    assert forall|k: int| lo + d <= k < hi + d implies #[trigger] t[k] == s[k - d] by {
        assert(s[k - d] == t[k - d + d]);
    }
    lemma_next_ws_is(t, lo + d, hi + d, false, a + d);
    lemma_next_ws_is(t, a + d, hi + d, true, b + d);
    if a < b {
        lemma_tokens_moved(s, b, hi, t, d);
        let x = tokens_in(s, b, hi);
        let y = tokens_in(t, b + d, hi + d);
        assert(s.subrange(a, b) =~= t.subrange(a + d, b + d));
        assert(tokens_in(s, lo, hi) =~= seq![s.subrange(a, b)] + x);
        assert(tokens_in(t, lo + d, hi + d) =~= seq![t.subrange(a + d, b + d)] + y);
    } else {
        assert(tokens_in(s, lo, hi) =~= tokens_in(t, lo + d, hi + d));
    }
}

/// The tokens of two texts with a space between them are those of the one and
/// then those of the other.
proof fn lemma_tokens_concat(a: Seq<char>, b: Seq<char>)
    ensures
        tokens_of(a + seq![' '] + b) == tokens_of(a) + tokens_of(b),
{
    let s = a + seq![' '] + b;
    let m = a.len() as int;
    assert(text::is_ws(s[m]));
    lemma_spans_split(s, 0, m, s.len() as int);
    lemma_tokens_moved(a, 0, m, s, 0);
    assert forall|k: int| 0 <= k < b.len() implies #[trigger] b[k] == s[k + (m + 1)] by {}
    lemma_tokens_moved(b, 0, b.len() as int, s, m + 1);
    assert(tokens_of(s) =~= tokens_in(s, 0, m) + tokens_in(s, m + 1, s.len() as int));
    assert(tokens_of(a) == tokens_in(a, 0, m));
    assert(tokens_of(b) == tokens_in(b, 0, b.len() as int));
}

/// Whether `s` is a token: not empty, and without whitespace.
pub open spec fn is_token(s: Seq<char>) -> bool {
    s.len() > 0 && forall|i: int| 0 <= i < s.len() ==> !text::is_ws(#[trigger] s[i])
}

proof fn lemma_one_token(s: Seq<char>)
    requires
        is_token(s),
    ensures
        tokens_of(s) == seq![s],
{
    let n = s.len() as int;
    lemma_next_ws_is(s, 0, n, false, 0);
    lemma_next_ws_is(s, 0, n, true, n);
    lemma_next_ws_is(s, n, n, false, n);
    assert(chunker::word_spans(s, n, n) =~= Seq::empty());
    assert(chunker::word_spans(s, 0, n) =~= seq![(0int, n)]);
    assert(s.subrange(0, n) =~= s);
    assert(tokens_of(s) =~= seq![s]);
}

/// The tokens of a text are tokens, and it has some unless it is blank.
proof fn lemma_tokens(s: Seq<char>, lo: int, hi: int)
    requires
        0 <= lo <= hi <= s.len(),
    ensures
        forall|k: int| 0 <= k < tokens_in(s, lo, hi).len() ==> is_token(#[trigger] tokens_in(s, lo, hi)[k]),
        tokens_in(s, lo, hi).len() == 0 <==> forall|i: int|
            lo <= i < hi ==> text::is_ws(#[trigger] s[i]),
    decreases hi - lo,
{
    let a = chunker::next_ws(s, lo, hi, false);
    let b = chunker::next_ws(s, a, hi, true);
    chunker::lemma_next_ws(s, lo, hi, false);
    chunker::lemma_next_ws(s, a, hi, true);
    if a < b {
        lemma_tokens(s, b, hi);
        let one = s.subrange(a, b);
        let rest = tokens_in(s, b, hi);
        let all = tokens_in(s, lo, hi);
        assert(all =~= seq![one] + rest);
        assert(!text::is_ws(s[a]));
        assert(is_token(one)) by {
            assert forall|i: int| 0 <= i < one.len() implies !text::is_ws(#[trigger] one[i]) by {
                assert(one[i] == s[a + i]);
            }
        }
        assert forall|k: int| 0 <= k < all.len() implies is_token(#[trigger] all[k]) by {
            if k > 0 {
                assert(all[k] == rest[k - 1]);
            }
        }
    } else {
        assert(a == hi);
    }
}

/// Joining tokens with spaces and splitting again gives the tokens.
proof fn lemma_split_joined(parts: Seq<Seq<char>>)
    requires
        forall|k: int| 0 <= k < parts.len() ==> is_token(#[trigger] parts[k]),
    ensures
        tokens_of(text::joined(parts, seq![' '])) == parts,
    decreases parts.len(),
{
    if parts.len() == 0 {
        let none = text::joined(parts, seq![' ']);
        lemma_tokens(none, 0, 0);
        assert(tokens_of(none) == tokens_in(none, 0, 0));
        assert(tokens_of(none) =~= parts);
    } else if parts.len() == 1 {
        lemma_one_token(parts[0]);
        assert(seq![parts[0]] =~= parts);
    } else {
        let front = parts.drop_last();
        assert forall|k: int| 0 <= k < front.len() implies is_token(#[trigger] front[k]) by {
            assert(front[k] == parts[k]);
        }
        lemma_split_joined(front);
        lemma_tokens_concat(text::joined(front, seq![' ']), parts.last());
        assert(parts.last() == parts[parts.len() - 1]);
        lemma_one_token(parts.last());
        assert(front + seq![parts.last()] =~= parts);
    }
}

proof fn lemma_joined_concat(a: Seq<Seq<char>>, b: Seq<Seq<char>>, sep: Seq<char>)
    requires
        a.len() > 0,
        b.len() > 0,
    ensures
        text::joined(a + b, sep) == text::joined(a, sep) + sep + text::joined(b, sep),
    decreases b.len(),
{
    let all = a + b;
    assert(all.drop_last() =~= a + b.drop_last());
    assert(all.last() == b.last());
    if b.len() == 1 {
        assert(all.drop_last() =~= a);
    } else {
        lemma_joined_concat(a, b.drop_last(), sep);
        assert(text::joined(all, sep) =~= text::joined(a, sep) + sep + text::joined(b, sep));
    }
}

proof fn lemma_doubled_is_free(s: Seq<char>)
    requires
        forall|i: int| 0 <= i < s.len() ==> !text::is_ws(#[trigger] s[i]),
    ensures
        forall|i: int| 0 <= i < doubled_quotes(s).len() ==> !text::is_ws(#[trigger] doubled_quotes(s)[i]),
    decreases s.len(),
{
    if s.len() > 0 {
        let rest = s.drop_last();
        assert forall|i: int| 0 <= i < rest.len() implies !text::is_ws(#[trigger] rest[i]) by {
            assert(rest[i] == s[i]);
        }
        lemma_doubled_is_free(rest);
        assert(!text::is_ws(s[s.len() - 1]));
        let (front, all) = (doubled_quotes(rest), doubled_quotes(s));
        assert forall|i: int| 0 <= i < all.len() implies !text::is_ws(#[trigger] all[i]) by {
            if i < front.len() {
                assert(all[i] == front[i]);
            } else {
                assert(all[i] == s.last());
            }
        }
    }
}

proof fn lemma_quoted_tokens(s: Seq<char>)
    ensures
        forall|k: int| 0 <= k < quoted_tokens(s).len() ==> is_token(#[trigger] quoted_tokens(s)[k]),
{
    lemma_tokens(s, 0, s.len() as int);
    assert(tokens_of(s) == tokens_in(s, 0, s.len() as int));
    assert forall|k: int| 0 <= k < quoted_tokens(s).len() implies is_token(
        #[trigger] quoted_tokens(s)[k],
    ) by {
        let t = tokens_of(s)[k];
        assert(is_token(t));
        lemma_doubled_is_free(t);
        assert(quoted_tokens(s)[k] == quoted(t));
    }
}

/// A sanitized query is empty exactly if the query is blank.
pub proof fn law_only_blank_queries_are_empty(s: Seq<char>)
    ensures
        sanitized(s).len() == 0 <==> text::blank(s),
{
    lemma_tokens(s, 0, s.len() as int);
    assert(tokens_of(s) == tokens_in(s, 0, s.len() as int));
    let parts = quoted_tokens(s);
    assert(parts.len() == tokens_of(s).len());
    if parts.len() > 0 {
        assert(parts.last() == quoted(tokens_of(s).last()));
        assert(parts[0] == quoted(tokens_of(s)[0]));
    }
}

/// Sanitizing two queries with a space between them is sanitizing each.
pub proof fn law_queries_are_sanitized_apart(a: Seq<char>, b: Seq<char>)
    requires
        !text::blank(a),
        !text::blank(b),
    ensures
        sanitized(a + seq![' '] + b) == sanitized(a) + seq![' '] + sanitized(b),
{
    lemma_tokens(a, 0, a.len() as int);
    lemma_tokens(b, 0, b.len() as int);
    assert(tokens_of(a) == tokens_in(a, 0, a.len() as int));
    assert(tokens_of(b) == tokens_in(b, 0, b.len() as int));
    lemma_tokens_concat(a, b);
    assert(quoted_tokens(a + seq![' '] + b) =~= quoted_tokens(a) + quoted_tokens(b));
    lemma_joined_concat(quoted_tokens(a), quoted_tokens(b), seq![' ']);
}

/// A quoted token without its quotes.
pub open spec fn unquoted(s: Seq<char>) -> Seq<char> {
    halved_quotes(s.subrange(1, s.len() - 1))
}

/// No token of a query gets lost, changed or moved: a sanitized query, split at
/// its spaces, holds the quoted tokens of the query, none of which has a space in
/// it, and without their quotes they are the tokens.
pub proof fn law_queries_keep_their_tokens(s: Seq<char>)
    ensures
        tokens_of(sanitized(s)) == quoted_tokens(s),
        forall|k: int| 0 <= k < quoted_tokens(s).len() ==> is_token(#[trigger] quoted_tokens(s)[k]),
        tokens_of(sanitized(s)).map_values(|t: Seq<char>| unquoted(t)) == tokens_of(s),
{
    lemma_quoted_tokens(s);
    lemma_split_joined(quoted_tokens(s));
    let back = tokens_of(sanitized(s)).map_values(|t: Seq<char>| unquoted(t));
    assert forall|k: int| 0 <= k < back.len() implies back[k] == tokens_of(s)[k] by {
        law_quoting_is_literal(tokens_of(s)[k]);
        assert(quoted_tokens(s)[k] == quoted(tokens_of(s)[k]));
    }
    assert(back =~= tokens_of(s));
}

// ---- lookups ----

fn map_scores(list: &Vec<ScoredId>) -> (r: StringHashMap<Score>)
    ensures
        r@ == ranking::score_map(list@),
{
    let mut map: StringHashMap<Score> = StringHashMap::new();
    let mut i: usize = 0;
    assert(list@.take(0) =~= Seq::empty());
    while i < list.len()
        invariant
            i <= list@.len(),
            map@ == ranking::score_map(list@.take(i as int)),
        decreases list@.len() - i,
    {
        assert(list@.take(i + 1).drop_last() =~= list@.take(i as int));
        map.insert(list[i].id.clone(), list[i].score);
        i += 1;
    }
    assert(list@.take(i as int) =~= list@);
    map
}

/// The chunks in `list` by id; of two with the same id, the later one.
pub open spec fn chunk_map(list: Seq<Chunk>) -> Map<Seq<char>, Chunk>
    decreases list.len(),
{
    if list.len() == 0 {
        Map::empty()
    } else {
        chunk_map(list.drop_last()).insert(list.last().id@, list.last())
    }
}

/// Whether `places` finds the chunks of `list` by id.
spec fn finds(places: Map<Seq<char>, usize>, list: Seq<Chunk>, n: int) -> bool {
    &&& places.dom() == chunk_map(list.take(n)).dom()
    &&& forall|id: Seq<char>|
        places.contains_key(id) ==> (#[trigger] places[id]) < n && list[places[id] as int]
            == chunk_map(list.take(n))[id]
}

fn map_chunks(list: &Vec<Chunk>) -> (r: StringHashMap<usize>)
    ensures
        finds(r@, list@, list@.len() as int),
{
    let mut map: StringHashMap<usize> = StringHashMap::new();
    let mut i: usize = 0;
    assert(list@.take(0) =~= Seq::empty());
    assert(map@.dom() =~= chunk_map(list@.take(0)).dom());
    while i < list.len()
        invariant
            i <= list@.len(),
            finds(map@, list@, i as int),
        decreases list@.len() - i,
    {
        let ghost before = map@;
        map.insert(list[i].id.clone(), i);
        proof {
            let chunk = list@[i as int];
            assert(list@.take(i + 1).drop_last() =~= list@.take(i as int));
            assert(list@.take(i + 1).last() == chunk);
            assert(map@ == before.insert(chunk.id@, i));
            assert(chunk_map(list@.take(i + 1)) == chunk_map(list@.take(i as int)).insert(
                chunk.id@,
                chunk,
            ));
            assert(map@.dom() =~= chunk_map(list@.take(i + 1)).dom());
            assert forall|id: Seq<char>| map@.contains_key(id) implies (#[trigger] map@[id]) < i + 1
                && list@[map@[id] as int] == chunk_map(list@.take(i + 1))[id] by {
                if id != chunk.id@ {
                    assert(before.contains_key(id));
                    assert(before[id] < i);
                }
            }
        }
        i += 1;
    }
    map
}

/// A document id with the path of its file.
#[derive(Debug)]
pub struct DocumentPath {
    pub doc_id: String,
    pub path: String,
}

/// The paths in `list` by document id; of two with the same id, the later one.
pub open spec fn path_map(list: Seq<DocumentPath>) -> Map<Seq<char>, Seq<char>>
    decreases list.len(),
{
    if list.len() == 0 {
        Map::empty()
    } else {
        path_map(list.drop_last()).insert(list.last().doc_id@, list.last().path@)
    }
}

/// The path of a document, or an empty one where none is known.
pub open spec fn path_of(paths: Map<Seq<char>, Seq<char>>, doc_id: Seq<char>) -> Seq<char> {
    if paths.contains_key(doc_id) {
        paths[doc_id]
    } else {
        Seq::empty()
    }
}

// ---- candidates ----

/// The ids in `list`, in order.
pub open spec fn ids_of(list: Seq<ScoredId>) -> Seq<Seq<char>> {
    list.map_values(|s: ScoredId| s.id@)
}

pub open spec fn at_most(n: nat, limit: usize) -> int {
    if n <= limit {
        n as int
    } else {
        limit as int
    }
}

/// The ids of the first `limit` entries of a ranking.
pub fn top_ids(list: &Vec<ScoredId>, limit: usize) -> (r: Vec<String>)
    ensures
        text::views(r@) == ids_of(list@).take(at_most(list@.len(), limit)),
{
    let mut out: Vec<String> = Vec::new();
    let mut i: usize = 0;
    while i < list.len() && i < limit
        invariant
            i <= list@.len(),
            i <= limit,
            out@.len() == i,
            forall|k: int| 0 <= k < i ==> (#[trigger] out@[k])@ == list@[k].id@,
        decreases list@.len() - i,
    {
        out.push(list[i].id.clone());
        i += 1;
    }
    assert(text::views(out@) =~= ids_of(list@).take(at_most(list@.len(), limit)));
    out
}

/// The chunks with the given ids, in their order, as far as they are known.
pub open spec fn known_chunks(ids: Seq<Seq<char>>, chunks: Map<Seq<char>, Chunk>) -> Seq<Chunk>
    decreases ids.len(),
{
    if ids.len() == 0 {
        Seq::empty()
    } else if chunks.contains_key(ids.last()) {
        known_chunks(ids.drop_last(), chunks).push(chunks[ids.last()])
    } else {
        known_chunks(ids.drop_last(), chunks)
    }
}

/// The chunks to be reranked: those with the given ids, in their order, as far
/// as the store had them.
pub fn chunks_in_order(ids: &Vec<String>, chunks: &Vec<Chunk>) -> (r: Vec<Chunk>)
    ensures
        r@ == known_chunks(text::views(ids@), chunk_map(chunks@)),
{
    let places = map_chunks(chunks);
    let ghost all = text::views(ids@);
    let mut out: Vec<Chunk> = Vec::new();
    let mut i: usize = 0;
    assert(all.take(0) =~= Seq::empty());
    assert(chunks@.take(chunks@.len() as int) =~= chunks@);
    while i < ids.len()
        invariant
            i <= ids@.len(),
            all == text::views(ids@),
            chunks@.take(chunks@.len() as int) == chunks@,
            finds(places@, chunks@, chunks@.len() as int),
            out@ == known_chunks(all.take(i as int), chunk_map(chunks@)),
        decreases ids@.len() - i,
    {
        assert(all.take(i + 1).drop_last() =~= all.take(i as int));
        assert(all.take(i + 1).last() == ids@[i as int]@);
        match places.get(ids[i].as_str()) {
            Some(p) => {
                out.push(chunks[*p].clone());
            },
            None => {},
        }
        i += 1;
    }
    assert(all.take(i as int) =~= all);
    out
}

/// The scores that a reranker gave, by chunk id.
pub open spec fn rerank_scores(list: Seq<ScoredChunk>) -> Seq<ScoredId> {
    list.map_values(|s: ScoredChunk| ScoredId { id: s.chunk.id, score: s.score })
}

pub fn scores_by_id(list: &Vec<ScoredChunk>) -> (r: Vec<ScoredId>)
    ensures
        r@ == rerank_scores(list@),
{
    let mut out: Vec<ScoredId> = Vec::new();
    let mut i: usize = 0;
    while i < list.len()
        invariant
            i <= list@.len(),
            out@ == rerank_scores(list@.take(i as int)),
        decreases list@.len() - i,
    {
        out.push(ScoredId { id: list[i].chunk.id.clone(), score: list[i].score });
        assert(out@ =~= rerank_scores(list@.take(i + 1)));
        i += 1;
    }
    assert(list@.take(i as int) =~= list@);
    out
}

/// The reranker score of each id, where there is one.
pub open spec fn rerank_keys(ids: Seq<Seq<char>>, scores: Map<Seq<char>, Score>) -> Seq<
    Option<Score>,
> {
    ids.map_values(
        |id: Seq<char>|
            if scores.contains_key(id) {
                Some(scores[id])
            } else {
                None
            },
    )
}

/// Whether `out` is `ids` ranked by reranker score.
pub open spec fn is_reranked(
    ids: Seq<Seq<char>>,
    scores: Map<Seq<char>, Score>,
    out: Seq<Seq<char>>,
) -> bool {
    exists|order: Seq<usize>|
        #[trigger] ranking::is_ranking(rerank_keys(ids, scores), order) && out == order.map_values(
            |p: usize| ids[p as int],
        )
}

/// Puts candidates in the order of their reranker scores. Candidates with a
/// score come first, by falling score, also where it is negative. The others
/// keep their order behind them.
pub fn rerank_order(ids: &Vec<String>, scores: &Vec<ScoredId>) -> (r: Vec<String>)
    ensures
        is_reranked(text::views(ids@), ranking::score_map(scores@), text::views(r@)),
{
    let map = map_scores(scores);
    let mut keys: Vec<Option<Score>> = Vec::new();
    let ghost all = text::views(ids@);
    let mut i: usize = 0;
    while i < ids.len()
        invariant
            i <= ids@.len(),
            all == text::views(ids@),
            map@ == ranking::score_map(scores@),
            keys@ == rerank_keys(all, map@).take(i as int),
        decreases ids@.len() - i,
    {
        assert(all[i as int] == ids@[i as int]@);
        match map.get(ids[i].as_str()) {
            Some(s) => keys.push(Some(*s)),
            None => keys.push(None),
        }
        assert(keys@ =~= rerank_keys(all, map@).take(i + 1));
        i += 1;
    }
    assert(keys@ =~= rerank_keys(all, map@));
    let order = ranking::rank(&keys);
    let mut out: Vec<String> = Vec::new();
    let mut k: usize = 0;
    while k < order.len()
        invariant
            k <= order@.len(),
            all == text::views(ids@),
            ranking::is_ranking(keys@, order@),
            keys@.len() == ids@.len(),
            text::views(out@) == order@.map_values(|p: usize| all[p as int]).take(k as int),
        decreases order@.len() - k,
    {
        assert(order@[k as int] < keys@.len());
        let ghost before = out@;
        out.push(ids[order[k]].clone());
        assert(text::views(out@) =~= text::views(before).push(all[order@[k as int] as int]));
        assert(text::views(out@) =~= order@.map_values(|p: usize| all[p as int]).take(k + 1));
        k += 1;
    }
    assert(text::views(out@) =~= order@.map_values(|p: usize| all[p as int]));
    out
}

// ---- documents of chunks ----

/// The values in `s`, each at its first place only.
pub open spec fn distinct<A>(s: Seq<A>) -> Seq<A>
    decreases s.len(),
{
    if s.len() == 0 {
        Seq::empty()
    } else if distinct(s.drop_last()).contains(s.last()) {
        distinct(s.drop_last())
    } else {
        distinct(s.drop_last()).push(s.last())
    }
}

/// [`distinct`] keeps every value, and none twice.
pub proof fn law_distinct<A>(s: Seq<A>)
    ensures
        distinct(s).no_duplicates(),
        forall|a: A| distinct(s).contains(a) <==> s.contains(a),
    decreases s.len(),
{
    if s.len() > 0 {
        let d = distinct(s.drop_last());
        law_distinct(s.drop_last());
        assert(s =~= s.drop_last().push(s.last()));
        assert forall|a: A| distinct(s).contains(a) <==> s.contains(a) by {
            if s.contains(a) {
                let i = choose|i: int| 0 <= i < s.len() && s[i] == a;
                if i < s.len() - 1 {
                    assert(s.drop_last()[i] == a);
                    assert(s.drop_last().contains(a));
                    assert(d.contains(a));
                    let k = choose|k: int| 0 <= k < d.len() && d[k] == a;
                    if !d.contains(s.last()) {
                        assert(distinct(s)[k] == a);
                    }
                } else if !d.contains(a) {
                    assert(distinct(s)[d.len() as int] == a);
                }
            }
            if distinct(s).contains(a) {
                let k = choose|k: int| 0 <= k < distinct(s).len() && distinct(s)[k] == a;
                if k < d.len() {
                    assert(d[k] == a);
                    assert(s.drop_last().contains(a));
                    let i = choose|i: int| 0 <= i < s.len() - 1 && s.drop_last()[i] == a;
                    assert(s[i] == a);
                } else {
                    assert(s[s.len() - 1] == a);
                }
            }
        }
    }
}

pub open spec fn doc_ids_of(chunks: Seq<Chunk>) -> Seq<Seq<char>> {
    chunks.map_values(|c: Chunk| c.doc_id@)
}

/// The ids of the documents that the chunks belong to, each once.
pub fn documents_of(chunks: &Vec<Chunk>) -> (r: Vec<String>)
    ensures
        text::views(r@) == distinct(doc_ids_of(chunks@)),
{
    let mut seen = vstd::hash_set::StringHashSet::new();
    let mut out: Vec<String> = Vec::new();
    let ghost all = doc_ids_of(chunks@);
    let mut i: usize = 0;
    assert(all.take(0) =~= Seq::empty());
    assert(text::views(out@) =~= Seq::empty());
    while i < chunks.len()
        invariant
            i <= chunks@.len(),
            all == doc_ids_of(chunks@),
            text::views(out@) == distinct(all.take(i as int)),
            forall|id: Seq<char>| seen@.contains(id) <==> text::views(out@).contains(id),
        decreases chunks@.len() - i,
    {
        let ghost before = text::views(out@);
        let ghost id = all[i as int];
        assert(all.take(i + 1).drop_last() =~= all.take(i as int));
        assert(all.take(i + 1).last() == id);
        assert(id == chunks@[i as int].doc_id@);
        if seen.insert(chunks[i].doc_id.clone()) {
            out.push(chunks[i].doc_id.clone());
            proof {
                assert(text::views(out@) =~= before.push(id));
                assert forall|x: Seq<char>| seen@.contains(x) <==> text::views(out@).contains(x) by {
                    if before.contains(x) {
                        let k = choose|k: int| 0 <= k < before.len() && before[k] == x;
                        assert(text::views(out@)[k] == x);
                    }
                    if x == id {
                        assert(text::views(out@)[before.len() as int] == x);
                    }
                    if text::views(out@).contains(x) {
                        let k = choose|k: int|
                            0 <= k < text::views(out@).len() && text::views(out@)[k] == x;
                        if k < before.len() {
                            assert(before[k] == x);
                        }
                    }
                }
            }
        }
        i += 1;
    }
    assert(all.take(i as int) =~= all);
    out
}

// ---- hits ----

/// The scores of the pipeline stages.
pub struct StageScores {
    pub bm25: Map<Seq<char>, Score>,
    pub vector: Map<Seq<char>, Score>,
    pub rrf: Map<Seq<char>, Score>,
    pub rerank: Map<Seq<char>, Score>,
}

/// The rankings that the pipeline stages gave.
pub struct StageRankings {
    pub bm25: Vec<ScoredId>,
    pub vector: Vec<ScoredId>,
    pub rrf: Vec<ScoredId>,
    pub rerank: Vec<ScoredId>,
}

impl View for StageRankings {
    type V = StageScores;

    open spec fn view(&self) -> StageScores {
        StageScores {
            bm25: ranking::score_map(self.bm25@),
            vector: ranking::score_map(self.vector@),
            rrf: ranking::score_map(self.rrf@),
            rerank: ranking::score_map(self.rerank@),
        }
    }
}

pub open spec fn score_in(map: Map<Seq<char>, Score>, id: Seq<char>) -> Option<Score> {
    if map.contains_key(id) {
        Some(map[id])
    } else {
        None
    }
}

/// The reranker score, else the fused score, else zero.
pub open spec fn final_score(scores: StageScores, id: Seq<char>) -> Score {
    match score_in(scores.rerank, id) {
        Some(s) => s,
        None => match score_in(scores.rrf, id) {
            Some(s) => s,
            None => Score { bits: 0 },
        },
    }
}

pub open spec fn explained(scores: StageScores, id: Seq<char>) -> ScoreExplain {
    ScoreExplain {
        bm25_score: score_in(scores.bm25, id),
        vector_score: score_in(scores.vector, id),
        rrf_score: score_in(scores.rrf, id),
        rerank_score: score_in(scores.rerank, id),
        final_score: final_score(scores, id),
    }
}

/// What a hit says.
pub struct HitView {
    pub chunk: Chunk,
    pub file_path: Seq<char>,
    pub score: Score,
    pub explain: ScoreExplain,
}

impl View for SearchHit {
    type V = HitView;

    open spec fn view(&self) -> HitView {
        HitView {
            chunk: self.chunk,
            file_path: self.file_path@,
            score: self.score,
            explain: self.explain,
        }
    }
}

pub open spec fn hit_views(hits: Seq<SearchHit>) -> Seq<HitView> {
    hits.map_values(|h: SearchHit| h@)
}

/// The hit for the chunk `id`.
pub open spec fn hit_for(
    id: Seq<char>,
    chunk: Chunk,
    paths: Map<Seq<char>, Seq<char>>,
    scores: StageScores,
) -> HitView {
    HitView {
        chunk,
        file_path: path_of(paths, chunk.doc_id@),
        score: final_score(scores, id),
        explain: explained(scores, id),
    }
}

/// The hits for the given ids, in their order. Ids without a chunk are left
/// out.
pub open spec fn hits_for(
    ids: Seq<Seq<char>>,
    chunks: Map<Seq<char>, Chunk>,
    paths: Map<Seq<char>, Seq<char>>,
    scores: StageScores,
) -> Seq<HitView>
    decreases ids.len(),
{
    if ids.len() == 0 {
        Seq::empty()
    } else {
        let rest = hits_for(ids.drop_last(), chunks, paths, scores);
        let id = ids.last();
        if chunks.contains_key(id) {
            rest.push(hit_for(id, chunks[id], paths, scores))
        } else {
            rest
        }
    }
}

fn get_score(map: &StringHashMap<Score>, id: &str) -> (r: Option<Score>)
    ensures
        r == score_in(map@, id@),
{
    match map.get(id) {
        Some(s) => Some(*s),
        None => None,
    }
}

pub(crate) fn map_paths(list: &Vec<DocumentPath>) -> (r: StringHashMap<String>)
    ensures
        r@.dom() == path_map(list@).dom(),
        forall|id: Seq<char>|
            path_map(list@).contains_key(id) ==> (#[trigger] r@[id])@ == path_map(list@)[id],
{
    let mut map: StringHashMap<String> = StringHashMap::new();
    let mut i: usize = 0;
    assert(list@.take(0) =~= Seq::empty());
    assert(map@.dom() =~= path_map(list@.take(0)).dom());
    while i < list.len()
        invariant
            i <= list@.len(),
            map@.dom() == path_map(list@.take(i as int)).dom(),
            forall|id: Seq<char>|
                path_map(list@.take(i as int)).contains_key(id) ==> (#[trigger] map@[id])@
                    == path_map(list@.take(i as int))[id],
        decreases list@.len() - i,
    {
        let ghost before = map@;
        map.insert(list[i].doc_id.clone(), list[i].path.clone());
        proof {
            assert(list@.take(i + 1).drop_last() =~= list@.take(i as int));
            assert(list@.take(i + 1).last() == list@[i as int]);
            assert(map@.dom() =~= path_map(list@.take(i + 1)).dom());
            assert forall|id: Seq<char>| path_map(list@.take(i + 1)).contains_key(id) implies (
            #[trigger] map@[id])@ == path_map(list@.take(i + 1))[id] by {
                if id != list@[i as int].doc_id@ {
                    assert(before[id]@ == path_map(list@.take(i as int))[id]);
                }
            }
        }
        i += 1;
    }
    assert(list@.take(i as int) =~= list@);
    map
}

/// Builds the hits for the first `top_k` ids of the final order.
pub fn assemble_hits(
    ordered: &Vec<String>,
    top_k: usize,
    chunks: &Vec<Chunk>,
    paths: &Vec<DocumentPath>,
    rankings: &StageRankings,
) -> (r: Vec<SearchHit>)
    ensures
        hit_views(r@) == hits_for(
            text::views(ordered@).take(at_most(ordered@.len(), top_k)),
            chunk_map(chunks@),
            path_map(paths@),
            rankings@,
        ),
{
    let places = map_chunks(chunks);
    let files = map_paths(paths);
    let bm25 = map_scores(&rankings.bm25);
    let vector = map_scores(&rankings.vector);
    let rrf = map_scores(&rankings.rrf);
    let rerank = map_scores(&rankings.rerank);
    let ghost all = text::views(ordered@);
    let mut out: Vec<SearchHit> = Vec::new();
    let mut i: usize = 0;
    assert(all.take(0) =~= Seq::empty());
    assert(hit_views(out@) =~= Seq::empty());
    assert(chunks@.take(chunks@.len() as int) =~= chunks@);
    while i < ordered.len() && i < top_k
        invariant
            i <= ordered@.len(),
            i <= top_k,
            all == text::views(ordered@),
            chunks@.take(chunks@.len() as int) == chunks@,
            finds(places@, chunks@, chunks@.len() as int),
            files@.dom() == path_map(paths@).dom(),
            forall|id: Seq<char>|
                path_map(paths@).contains_key(id) ==> (#[trigger] files@[id])@ == path_map(
                    paths@,
                )[id],
            bm25@ == rankings@.bm25,
            vector@ == rankings@.vector,
            rrf@ == rankings@.rrf,
            rerank@ == rankings@.rerank,
            hit_views(out@) == hits_for(
                all.take(i as int),
                chunk_map(chunks@),
                path_map(paths@),
                rankings@,
            ),
        decreases ordered@.len() - i,
    {
        let id = ordered[i].as_str();
        assert(all.take(i + 1).drop_last() =~= all.take(i as int));
        assert(all.take(i + 1).last() == id@);
        match places.get(id) {
            Some(p) => {
                let chunk = chunks[*p].clone();
                let rrf_score: Option<Score> = get_score(&rrf, id);
                let rerank_score: Option<Score> = get_score(&rerank, id);
                let final_score: Score = match rerank_score {
                    Some(s) => s,
                    None => match rrf_score {
                        Some(s) => s,
                        None => Score::zero(),
                    },
                };
                let file_path: String = match files.get(chunk.doc_id.as_str()) {
                    Some(path) => path.clone(),
                    None => String::new(),
                };
                let ghost before = hit_views(out@);
                out.push(
                    SearchHit {
                        chunk,
                        file_path,
                        score: final_score,
                        explain: ScoreExplain {
                            bm25_score: get_score(&bm25, id),
                            vector_score: get_score(&vector, id),
                            rrf_score,
                            rerank_score,
                            final_score,
                        },
                    },
                );
                proof {
                    let hit = hit_for(id@, chunk_map(chunks@)[id@], path_map(paths@), rankings@);
                    assert(out@.last()@ == hit);
                    assert(hit_views(out@) =~= before.push(hit));
                }
            },
            None => {},
        }
        i += 1;
    }
    out
}

// ---- what quoting and listing once guarantee ----

proof fn lemma_joined_quotes(parts: Seq<Seq<char>>)
    requires
        parts.len() > 0,
        forall|k: int| 0 <= k < parts.len() ==> is_token(#[trigger] parts[k]),
        forall|k: int|
            0 <= k < parts.len() ==> (#[trigger] parts[k]).len() >= 2 && parts[k][0] == '"'
                && parts[k].last() == '"',
    ensures
        ({
            let all = text::joined(parts, seq![' ']);
            &&& all.len() >= 2 && all[0] == '"' && all.last() == '"'
            &&& forall|i: int|
                0 <= i < all.len() && text::is_ws(#[trigger] all[i]) ==> all[i] == ' ' && 0 < i
                    < all.len() - 1 && all[i - 1] == '"' && all[i + 1] == '"'
        }),
    decreases parts.len(),
{
    let all = text::joined(parts, seq![' ']);
    let last = parts.last();
    assert(last == parts[parts.len() - 1]);
    assert(is_token(last));
    if parts.len() == 1 {
        assert(all =~= last);
    } else {
        let front = parts.drop_last();
        assert forall|k: int| 0 <= k < front.len() implies is_token(#[trigger] front[k]) && front[k].len()
            >= 2 && front[k][0] == '"' && front[k].last() == '"' by {
            assert(front[k] == parts[k]);
        }
        lemma_joined_quotes(front);
        let rest = text::joined(front, seq![' ']);
        assert(all =~= rest + seq![' '] + last);
        assert forall|i: int| 0 <= i < all.len() && text::is_ws(#[trigger] all[i]) implies all[i] == ' '
            && 0 < i < all.len() - 1 && all[i - 1] == '"' && all[i + 1] == '"' by {
            if i < rest.len() {
                assert(all[i] == rest[i]);
                assert(all[i - 1] == rest[i - 1]);
                assert(all[i + 1] == rest[i + 1]);
            } else if i == rest.len() {
                assert(all[i - 1] == rest.last());
                assert(all[i + 1] == last[0]);
            } else {
                assert(all[i] == last[i - rest.len() - 1]);
            }
        }
    }
}

/// Each token of a sanitized query stands in double quotes, and between two of
/// them stands one space and nothing else.
pub proof fn law_tokens_stand_in_quotes(s: Seq<char>)
    ensures
        forall|k: int|
            0 <= k < tokens_of(sanitized(s)).len() ==> {
                let t = #[trigger] tokens_of(sanitized(s))[k];
                t.len() >= 2 && t[0] == '"' && t.last() == '"'
            },
        forall|i: int|
            0 <= i < sanitized(s).len() && text::is_ws(#[trigger] sanitized(s)[i]) ==> sanitized(
                s,
            )[i] == ' ' && 0 < i < sanitized(s).len() - 1 && sanitized(s)[i - 1] == '"'
                && sanitized(s)[i + 1] == '"',
{
    let parts = quoted_tokens(s);
    lemma_quoted_tokens(s);
    law_queries_keep_their_tokens(s);
    assert forall|k: int| 0 <= k < parts.len() implies (#[trigger] parts[k]).len() >= 2
        && parts[k][0] == '"' && parts[k].last() == '"' by {
        assert(parts[k] == quoted(tokens_of(s)[k]));
    }
    if parts.len() > 0 {
        lemma_joined_quotes(parts);
    } else {
        assert(sanitized(s).len() == 0);
    }
}

/// [`distinct`] keeps each value where it stands first. The result gives these
/// places.
pub proof fn law_distinct_keeps_first_places<A>(s: Seq<A>) -> (at: Seq<int>)
    ensures
        at.len() == distinct(s).len(),
        forall|p: int, q: int| 0 <= p < q < at.len() ==> #[trigger] at[p] < #[trigger] at[q],
        forall|p: int|
            0 <= p < at.len() ==> 0 <= (#[trigger] at[p]) < s.len() && s[at[p]] == distinct(s)[p],
        forall|p: int, j: int|
            0 <= p < at.len() && 0 <= j < #[trigger] at[p] ==> #[trigger] s[j] != distinct(s)[p],
    decreases s.len(),
{
    if s.len() == 0 {
        Seq::empty()
    } else {
        let front = s.drop_last();
        let d = distinct(front);
        let places = law_distinct_keeps_first_places(front);
        law_distinct(front);
        assert forall|p: int, j: int|
            0 <= p < places.len() && 0 <= j < #[trigger] places[p] implies #[trigger] s[j] != d[p] by {
            assert(front[j] == s[j]);
        }
        if d.contains(s.last()) {
            places
        } else {
            let at = places.push(s.len() - 1);
            assert forall|p: int, j: int|
                0 <= p < at.len() && 0 <= j < #[trigger] at[p] implies #[trigger] s[j]
                != distinct(s)[p] by {
                if p < places.len() {
                    assert(at[p] == places[p]);
                } else {
                    assert(front[j] == s[j]);
                    assert(front.contains(s[j]));
                }
            }
            at
        }
    }
}

} // verus!
