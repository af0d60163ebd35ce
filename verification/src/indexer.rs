//! Preparing documents for the index.

use chrono::Utc;
use vstd::hash_map::StringHashMap;
use vstd::hash_set::StringHashSet;
use vstd::prelude::*;

use crate::hash;
use crate::models::{Chunk, ChunkCandidate, Document, ModelSpec, Timestamp};
use crate::retriever;
use crate::retriever::DocumentPath;
use crate::text;
use crate::traits::{Chunker, WordSegmenter};

verus! {

/// What an index run did.
#[derive(Debug, Clone, Copy, PartialEq, Eq, Structural)]
pub struct IndexStats {
    pub files_indexed: usize,
    pub files_skipped: usize,
    pub files_removed: usize,
    pub chunks_indexed: usize,
}

pub open spec fn nothing_indexed() -> IndexStats {
    IndexStats { files_indexed: 0, files_skipped: 0, files_removed: 0, chunks_indexed: 0 }
}

impl Default for IndexStats {
    fn default() -> (r: Self)
        ensures
            r == nothing_indexed(),
    {
        IndexStats { files_indexed: 0, files_skipped: 0, files_removed: 0, chunks_indexed: 0 }
    }
}

impl std::ops::Add for IndexStats {
    type Output = IndexStats;

    fn add(self, other: IndexStats) -> (r: IndexStats) {
        IndexStats {
            files_indexed: self.files_indexed + other.files_indexed,
            files_skipped: self.files_skipped + other.files_skipped,
            files_removed: self.files_removed + other.files_removed,
            chunks_indexed: self.chunks_indexed + other.chunks_indexed,
        }
    }
}

impl vstd::std_specs::ops::AddSpecImpl for IndexStats {
    open spec fn obeys_add_spec() -> bool {
        true
    }

    open spec fn add_req(self, other: IndexStats) -> bool {
        &&& self.files_indexed + other.files_indexed <= usize::MAX
        &&& self.files_skipped + other.files_skipped <= usize::MAX
        &&& self.files_removed + other.files_removed <= usize::MAX
        &&& self.chunks_indexed + other.chunks_indexed <= usize::MAX
    }

    open spec fn add_spec(self, other: IndexStats) -> IndexStats {
        IndexStats {
            files_indexed: (self.files_indexed + other.files_indexed) as usize,
            files_skipped: (self.files_skipped + other.files_skipped) as usize,
            files_removed: (self.files_removed + other.files_removed) as usize,
            chunks_indexed: (self.chunks_indexed + other.chunks_indexed) as usize,
        }
    }
}

// ---- when everything has to be indexed again ----

/// What is remembered of the chunking that an index was built with.
pub open spec fn indexing_mark(chunk_size: usize, chunk_overlap: usize) -> Seq<char> {
    text::decimal(chunk_size as nat) + ":"@ + text::decimal(chunk_overlap as nat)
}

/// What is remembered of the chunking that an index was built with.
pub fn index_meta(chunk_size: usize, chunk_overlap: usize) -> (r: String)
    ensures
        r@ == indexing_mark(chunk_size, chunk_overlap),
{
    let mut out = text::to_decimal(chunk_size as u128);
    out.append(":");
    text::push_decimal(&mut out, chunk_overlap as u128);
    out
}

/// Whether two specs name the same model file.
pub open spec fn same_model(a: ModelSpec, b: ModelSpec) -> bool {
    a.repo_id@ == b.repo_id@ && a.filename@ == b.filename@ && a.revision@ == b.revision@
}

/// Whether the stored vectors come from another model, or from none.
pub open spec fn is_other_model(stored: Option<ModelSpec>, current: ModelSpec) -> bool {
    match stored {
        Some(spec) => !same_model(spec, current),
        None => true,
    }
}

/// Whether the stored vectors come from another model, or from none.
pub fn model_changed(stored: &Option<ModelSpec>, current: &ModelSpec) -> (r: bool)
    ensures
        r == is_other_model(*stored, *current),
{
    match stored {
        Some(spec) => spec.repo_id != current.repo_id || spec.filename != current.filename
            || spec.revision != current.revision,
        None => true,
    }
}

/// Whether the index was built with another chunking, or with an unknown one.
pub open spec fn is_other_chunking(
    stored: Option<String>,
    chunk_size: usize,
    chunk_overlap: usize,
) -> bool {
    match stored {
        Some(mark) => mark@ != indexing_mark(chunk_size, chunk_overlap),
        None => true,
    }
}

/// Whether the index was built with another chunking, or with an unknown one.
pub fn chunking_changed(stored: &Option<String>, chunk_size: usize, chunk_overlap: usize) -> (r:
    bool)
    ensures
        r == is_other_chunking(*stored, chunk_size, chunk_overlap),
{
    match stored {
        Some(mark) => *mark != index_meta(chunk_size, chunk_overlap),
        None => true,
    }
}

/// Two chunkings leave the same mark only if they are the same.
pub proof fn law_mark_tells_chunkings_apart(a: usize, b: usize, c: usize, d: usize)
    requires
        indexing_mark(a, b) == indexing_mark(c, d),
    ensures
        a == c,
        b == d,
{
    reveal_strlit(":");
    let x = text::decimal(a as nat);
    let y = text::decimal(c as nat);
    text::lemma_decimal_value(a as nat);
    text::lemma_decimal_value(b as nat);
    text::lemma_decimal_value(c as nat);
    text::lemma_decimal_value(d as nat);
    let m = indexing_mark(a, b);
    assert(m[x.len() as int] == ':');
    assert(m[y.len() as int] == ':') by {
        assert(indexing_mark(c, d)[y.len() as int] == ':');
    }
    if x.len() < y.len() {
        assert(indexing_mark(c, d)[x.len() as int] == y[x.len() as int]);
        assert(text::is_digit(y[x.len() as int]));
    }
    if y.len() < x.len() {
        assert(m[y.len() as int] == x[y.len() as int]);
        assert(text::is_digit(x[y.len() as int]));
    }
    assert(x =~= m.take(x.len() as int));
    assert(y =~= indexing_mark(c, d).take(y.len() as int));
    let n = x.len() + 1;
    assert(text::decimal(b as nat) =~= m.skip(n as int));
    assert(text::decimal(d as nat) =~= indexing_mark(c, d).skip(n as int));
}

// ---- documents whose files are gone ----

/// Whether `c` parts the names in paths that begin with `dir`. A slash always
/// does, and a backslash unless the paths are rooted at a slash.
pub open spec fn is_separator(dir: Seq<char>, c: char) -> bool {
    c == '/' || (c == '\\' && !(dir.len() > 0 && dir[0] == '/'))
}

/// Whether `path` is `dir` itself or lies in it.
pub open spec fn lies_in(path: Seq<char>, dir: Seq<char>) -> bool {
    &&& dir.is_prefix_of(path)
    &&& {
        ||| path.len() == dir.len()
        ||| is_separator(dir, path[dir.len() as int])
        ||| dir.len() > 0 && is_separator(dir, dir.last())
    }
}

/// Whether the path of a document is `dir` or lies in it.
pub open spec fn is_under(paths: Map<Seq<char>, Seq<char>>, id: Seq<char>, dir: Seq<char>) -> bool {
    paths.contains_key(id) && lies_in(paths[id], dir)
}

/// Whether `path` is `dir` itself or lies in it.
pub fn is_inside(path: &str, dir: &str) -> (r: bool)
    ensures
        r == lies_in(path@, dir@),
{
    if !text::starts_with(path, dir) {
        return false;
    }
    let p = text::chars_of(path);
    let d = text::chars_of(dir);
    let n: usize = d.len();
    if p.len() == n {
        return true;
    }
    let rooted: bool = n > 0 && d[0] == '/';
    let behind: char = p[n];
    if behind == '/' || (behind == '\\' && !rooted) {
        return true;
    }
    n > 0 && (d[n - 1] == '/' || (d[n - 1] == '\\' && !rooted))
}

/// The documents under `dir` that are not among the current ones, in order.
pub open spec fn gone_documents(
    docs: Seq<Document>,
    current: Seq<Seq<char>>,
    paths: Map<Seq<char>, Seq<char>>,
    dir: Seq<char>,
) -> Seq<Seq<char>>
    decreases docs.len(),
{
    if docs.len() == 0 {
        Seq::empty()
    } else {
        let rest = gone_documents(docs.drop_last(), current, paths, dir);
        let id = docs.last().id@;
        if !current.contains(id) && is_under(paths, id, dir) {
            rest.push(id)
        } else {
            rest
        }
    }
}

fn set_of(list: &Vec<String>) -> (r: StringHashSet)
    ensures
        forall|x: Seq<char>| r@.contains(x) <==> text::views(list@).contains(x),
{
    let mut set = StringHashSet::new();
    let ghost all = text::views(list@);
    let mut i: usize = 0;
    while i < list.len()
        invariant
            i <= list@.len(),
            all == text::views(list@),
            forall|x: Seq<char>| set@.contains(x) <==> all.take(i as int).contains(x),
        decreases list@.len() - i,
    {
        set.insert(list[i].clone());
        proof {
            let before = all.take(i as int);
            let after = all.take(i + 1);
            assert(after =~= before.push(list@[i as int]@));
            assert forall|x: Seq<char>| set@.contains(x) <==> after.contains(x) by {
                if before.contains(x) {
                    let k = choose|k: int| 0 <= k < before.len() && before[k] == x;
                    assert(after[k] == x);
                }
                if x == list@[i as int]@ {
                    assert(after[i as int] == x);
                }
                if after.contains(x) {
                    let k = choose|k: int| 0 <= k < after.len() && after[k] == x;
                    if k < i {
                        assert(before[k] == x);
                    }
                }
            }
        }
        i += 1;
    }
    assert(all.take(i as int) =~= all);
    set
}

/// The documents to remove from the index: those whose file lay under `dir` and
/// is not among the current ones any more.
pub fn find_gone(
    docs: &Vec<Document>,
    current: &Vec<String>,
    paths: &Vec<DocumentPath>,
    dir: &str,
) -> (r: Vec<String>)
    ensures
        text::views(r@) == gone_documents(
            docs@,
            text::views(current@),
            retriever::path_map(paths@),
            dir@,
        ),
{
    let kept = set_of(current);
    let files = retriever::map_paths(paths);
    let ghost map = retriever::path_map(paths@);
    let mut out: Vec<String> = Vec::new();
    let mut i: usize = 0;
    assert(docs@.take(0) =~= Seq::empty());
    assert(text::views(out@) =~= Seq::empty());
    while i < docs.len()
        invariant
            i <= docs@.len(),
            map == retriever::path_map(paths@),
            forall|x: Seq<char>| kept@.contains(x) <==> text::views(current@).contains(x),
            files@.dom() == map.dom(),
            forall|id: Seq<char>| map.contains_key(id) ==> (#[trigger] files@[id])@ == map[id],
            text::views(out@) == gone_documents(
                docs@.take(i as int),
                text::views(current@),
                map,
                dir@,
            ),
        decreases docs@.len() - i,
    {
        let id = docs[i].id.as_str();
        assert(docs@.take(i + 1).drop_last() =~= docs@.take(i as int));
        assert(docs@.take(i + 1).last() == docs@[i as int]);
        if !kept.contains(id) {
            match files.get(id) {
                Some(path) => {
                    if is_inside(path.as_str(), dir) {
                        let ghost before = text::views(out@);
                        out.push(docs[i].id.clone());
                        assert(text::views(out@) =~= before.push(id@));
                    }
                },
                None => {},
            }
        }
        i += 1;
    }
    assert(docs@.take(i as int) =~= docs@);
    out
}

/// A document is removed only if its file is not there any more and lay in the
/// directory that was indexed, or was the file that was indexed.
pub proof fn law_only_gone_documents(
    docs: Seq<Document>,
    current: Seq<Seq<char>>,
    paths: Map<Seq<char>, Seq<char>>,
    dir: Seq<char>,
    k: int,
)
    requires
        0 <= k < gone_documents(docs, current, paths, dir).len(),
    ensures
        ({
            let id = gone_documents(docs, current, paths, dir)[k];
            &&& !current.contains(id)
            &&& is_under(paths, id, dir)
            &&& exists|i: int| 0 <= i < docs.len() && (#[trigger] docs[i]).id@ == id
        }),
    decreases docs.len(),
{
    let rest = gone_documents(docs.drop_last(), current, paths, dir);
    if k < rest.len() {
        law_only_gone_documents(docs.drop_last(), current, paths, dir, k);
        let id = rest[k];
        let i = choose|i: int|
            0 <= i < docs.drop_last().len() && (#[trigger] docs.drop_last()[i]).id@ == id;
        assert(docs[i].id@ == id);
    } else {
        assert(docs[docs.len() - 1].id@ == docs.last().id@);
    }
}

/// A path that goes on behind the name of a directory without a separator does
/// not lie in it: a file in `notes2` is none in `notes`.
pub proof fn law_siblings_lie_elsewhere(dir: Seq<char>, c: char, rest: Seq<char>)
    requires
        dir.len() > 0,
        !is_separator(dir, dir.last()),
        !is_separator(dir, c),
    ensures
        !lies_in(dir.push(c) + rest, dir),
        lies_in(dir.push('/') + rest, dir),
        lies_in(dir, dir),
{
    assert((dir.push(c) + rest)[dir.len() as int] == c);
    let inside = dir.push('/') + rest;
    assert(inside[dir.len() as int] == '/');
    assert(dir =~= inside.subrange(0, dir.len() as int));
    assert(dir =~= dir.subrange(0, dir.len() as int));
}

/// Every document in the directory whose file is not there any more is removed.
pub proof fn law_all_gone_documents(
    docs: Seq<Document>,
    current: Seq<Seq<char>>,
    paths: Map<Seq<char>, Seq<char>>,
    dir: Seq<char>,
    i: int,
)
    requires
        0 <= i < docs.len(),
        !current.contains(docs[i].id@),
        is_under(paths, docs[i].id@, dir),
    ensures
        gone_documents(docs, current, paths, dir).contains(docs[i].id@),
    decreases docs.len(),
{
    let all = gone_documents(docs, current, paths, dir);
    let rest = gone_documents(docs.drop_last(), current, paths, dir);
    let id = docs[i].id@;
    if i == docs.len() - 1 {
        assert(all[all.len() - 1] == id);
    } else {
        assert(docs.drop_last()[i] == docs[i]);
        law_all_gone_documents(docs.drop_last(), current, paths, dir, i);
        let k = choose|k: int| 0 <= k < rest.len() && rest[k] == id;
        assert(all[k] == id);
    }
}

// ---- known documents ----

/// Documents by id; of two with the same id, the later one.
pub open spec fn document_map(docs: Seq<Document>) -> Map<Seq<char>, Document>
    decreases docs.len(),
{
    if docs.len() == 0 {
        Map::empty()
    } else {
        document_map(docs.drop_last()).insert(docs.last().id@, docs.last())
    }
}

/// The documents in the index, to be found by id.
pub struct DocumentIndex {
    docs: Vec<Document>,
    places: StringHashMap<usize>,
}

spec fn places_fit(places: Map<Seq<char>, usize>, docs: Seq<Document>, n: int) -> bool {
    let map = document_map(docs.take(n));
    &&& places.dom() == map.dom()
    &&& forall|id: Seq<char>|
        places.contains_key(id) ==> (#[trigger] places[id]) < n && docs[places[id] as int]
            == map[id]
}

impl View for DocumentIndex {
    type V = Map<Seq<char>, Document>;

    closed spec fn view(&self) -> Map<Seq<char>, Document> {
        document_map(self.docs@)
    }
}

impl DocumentIndex {
    #[verifier::type_invariant]
    spec fn fits(self) -> bool {
        places_fit(self.places@, self.docs@, self.docs@.len() as int)
    }

    pub fn new(docs: Vec<Document>) -> (r: Self)
        ensures
            r@ == document_map(docs@),
    {
        let mut places: StringHashMap<usize> = StringHashMap::new();
        let mut i: usize = 0;
        assert(docs@.take(0) =~= Seq::empty());
        assert(places@.dom() =~= document_map(docs@.take(0)).dom());
        while i < docs.len()
            invariant
                i <= docs@.len(),
                places_fit(places@, docs@, i as int),
            decreases docs@.len() - i,
        {
            let ghost before = places@;
            places.insert(docs[i].id.clone(), i);
            proof {
                let doc = docs@[i as int];
                assert(docs@.take(i + 1).drop_last() =~= docs@.take(i as int));
                assert(docs@.take(i + 1).last() == doc);
                assert(document_map(docs@.take(i + 1)) == document_map(docs@.take(i as int)).insert(
                    doc.id@,
                    doc,
                ));
                assert(places@.dom() =~= document_map(docs@.take(i + 1)).dom());
                assert forall|id: Seq<char>| places@.contains_key(id) implies (#[trigger] places@[id])
                    < i + 1 && docs@[places@[id] as int] == document_map(docs@.take(i + 1))[id] by {
                    if id != doc.id@ {
                        assert(before.contains_key(id));
                        assert(before[id] < i);
                    }
                }
            }
            i += 1;
        }
        DocumentIndex { docs, places }
    }

    /// The document with the given id.
    pub fn get(&self, id: &str) -> (r: Option<&Document>)
        ensures
            match r {
                Some(d) => self@.contains_key(id@) && *d == self@[id@],
                None => !self@.contains_key(id@),
            },
    {
        proof {
            use_type_invariant(self);
            assert(self.docs@.take(self.docs@.len() as int) =~= self.docs@);
        }
        match self.places.get(id) {
            Some(p) => Some(&self.docs[*p]),
            None => None,
        }
    }
}

// ---- preparing a file ----

/// A file that is ready to be embedded and stored.
#[derive(Debug)]
pub struct PendingFile {
    pub path: String,
    pub doc: Document,
    pub chunks: Vec<Chunk>,
    pub chunk_texts: Vec<String>,
    pub tokenized_texts: Vec<String>,
    pub is_update: bool,
}

/// Whether the index holds the file with this content already.
pub open spec fn is_unchanged(
    existing: Map<Seq<char>, Document>,
    path: Seq<char>,
    content: Seq<char>,
) -> bool {
    let id = hash::text_id(path);
    existing.contains_key(id) && existing[id].content_hash@ == hash::text_id(content)
}

pub open spec fn candidate_texts(candidates: Seq<ChunkCandidate>) -> Seq<Seq<char>> {
    candidates.map_values(|c: ChunkCandidate| c.text@)
}

/// Whether `chunk` is the chunk of the document `doc_id` that `candidate`
/// becomes: it is named by the hash of its text.
pub open spec fn is_chunk_of(chunk: Chunk, candidate: ChunkCandidate, doc_id: Seq<char>) -> bool {
    &&& chunk.id@ == hash::text_id(candidate.text@)
    &&& chunk.doc_id@ == doc_id
    &&& chunk.text@ == candidate.text@
    &&& chunk.byte_range == candidate.byte_range
}

/// Whether `file` is the file `path` with the given content, chunks and words.
pub open spec fn is_prepared(
    file: PendingFile,
    path: Seq<char>,
    content: Seq<char>,
    existing: Map<Seq<char>, Document>,
    candidates: Seq<ChunkCandidate>,
    words: Seq<Seq<char>>,
    now: Timestamp,
) -> bool {
    let id = hash::text_id(path);
    &&& file.path@ == path
    &&& file.doc.id@ == id
    &&& file.doc.content_hash@ == hash::text_id(content)
    &&& file.doc.content_size == text::byte_len(content)
    &&& file.doc.indexed_at == now
    &&& file.chunks@.len() == candidates.len()
    &&& forall|k: int|
        0 <= k < candidates.len() ==> is_chunk_of(#[trigger] file.chunks@[k], candidates[k], id)
    &&& text::views(file.chunk_texts@) == candidate_texts(candidates)
    &&& text::views(file.tokenized_texts@) == words
    &&& file.is_update == existing.contains_key(id)
}

/// Puts a file together for embedding and storage, given its chunks, their
/// words, and the time. A file that the index holds unchanged is left out,
/// unless `force` is set, and so is one without chunks.
pub fn prepare_file_at(
    path: &str,
    content: &str,
    existing: &DocumentIndex,
    force: bool,
    candidates: &Vec<ChunkCandidate>,
    words: Vec<String>,
    now: Timestamp,
) -> (r: Option<PendingFile>)
    ensures
        r is None <==> (!force && is_unchanged(existing@, path@, content@)) || candidates@.len()
            == 0,
        r matches Some(file) ==> is_prepared(
            file,
            path@,
            content@,
            existing@,
            candidates@,
            text::views(words@),
            now,
        ),
{
    let content_hash = hash::sha256_hex(content);
    let doc_id = hash::sha256_hex(path);
    let is_update: bool = match existing.get(doc_id.as_str()) {
        Some(known) => {
            if !force && known.content_hash == content_hash {
                return None;
            }
            true
        },
        None => false,
    };
    if candidates.len() == 0 {
        return None;
    }
    let mut chunk_texts: Vec<String> = Vec::new();
    let mut chunks: Vec<Chunk> = Vec::new();
    let mut i: usize = 0;
    while i < candidates.len()
        invariant
            i <= candidates@.len(),
            doc_id@ == hash::text_id(path@),
            chunks@.len() == i,
            forall|k: int|
                0 <= k < i ==> is_chunk_of(#[trigger] chunks@[k], candidates@[k], doc_id@),
            text::views(chunk_texts@) == candidate_texts(candidates@).take(i as int),
        decreases candidates@.len() - i,
    {
        let c = &candidates[i];
        let ghost before = text::views(chunk_texts@);
        chunk_texts.push(c.text.clone());
        assert(text::views(chunk_texts@) =~= before.push(c.text@));
        assert(text::views(chunk_texts@) =~= candidate_texts(candidates@).take(i + 1));
        chunks.push(
            Chunk {
                id: hash::sha256_hex(c.text.as_str()),
                doc_id: doc_id.clone(),
                text: c.text.clone(),
                byte_range: c.byte_range.start..c.byte_range.end,
            },
        );
        i += 1;
    }
    assert(text::views(chunk_texts@) =~= candidate_texts(candidates@));
    let content_size: usize = content.as_bytes().len();
    let doc = Document { id: doc_id, content_hash, content_size, indexed_at: now };
    Some(
        PendingFile {
            path: path.to_string(),
            doc,
            chunks,
            chunk_texts,
            tokenized_texts: words,
            is_update,
        },
    )
}

/// Whether `r` may come of preparing a file with the given chunker and
/// segmenter: an unchanged file is left out, and so is one that the chunker
/// finds nothing in; another is put together from what they gave.
pub open spec fn may_prepare<C: Chunker + ?Sized, S: WordSegmenter + ?Sized>(
    r: Option<PendingFile>,
    path: Seq<char>,
    content: &str,
    existing: Map<Seq<char>, Document>,
    force: bool,
    chunker: &C,
    segmenter: &S,
    candidates: Vec<ChunkCandidate>,
    words: Seq<String>,
    now: Timestamp,
) -> bool {
    if !force && is_unchanged(existing, path, content@) {
        r is None
    } else {
        &&& call_ensures(C::chunk, (chunker, content), candidates)
        &&& candidates@.len() == words.len()
        &&& forall|k: int|
            0 <= k < words.len() ==> #[trigger] is_segmented(
                segmenter,
                candidates@[k].text@,
                words[k],
            )
        &&& r is None <==> candidates@.len() == 0
        &&& r matches Some(file) ==> is_prepared(
            file,
            path,
            content@,
            existing,
            candidates@,
            text::views(words),
            now,
        )
    }
}

/// Whether the segmenter may give `words` for a text.
pub open spec fn is_segmented<S: WordSegmenter + ?Sized>(
    segmenter: &S,
    s: Seq<char>,
    words: String,
) -> bool {
    exists|t: &str|
        #![trigger call_ensures(S::segment, (segmenter, t), words)]
        t@ == s && call_ensures(S::segment, (segmenter, t), words)
}

/// Whether the clock may read `t`: it starts in 1970, and knows no leap seconds.
pub open spec fn is_clock_time(t: Timestamp) -> bool {
    0 <= t.secs && t.nanos < 1_000_000_000
}

/// `Utc::now` of the `chrono` crate: what the clock reads. Which time that is
/// depends on the machine, and is not stated.
#[verifier::external_body]
fn utc_now() -> (r: Timestamp)
    ensures
        is_clock_time(r),
{
    let now = Utc::now();
    Timestamp { secs: now.timestamp(), nanos: now.timestamp_subsec_nanos() }
}

/// Chunks, segments and puts together one file. A file that the index holds
/// unchanged is left out, unless `force` is set, and so is one without chunks.
pub fn prepare_file<C: Chunker + ?Sized, S: WordSegmenter + ?Sized>(
    path: &str,
    content: &str,
    existing: &DocumentIndex,
    force: bool,
    chunker: &C,
    segmenter: &S,
) -> (r: Option<PendingFile>)
    ensures
        exists|candidates: Vec<ChunkCandidate>, words: Seq<String>, now: Timestamp|
            is_clock_time(now) && #[trigger] may_prepare(
                r,
                path@,
                content,
                existing@,
                force,
                chunker,
                segmenter,
                candidates,
                words,
                now,
            ),
{
    if !force {
        let doc_id = hash::sha256_hex(path);
        match existing.get(doc_id.as_str()) {
            Some(known) => {
                if known.content_hash == hash::sha256_hex(content) {
                    let ghost none: Vec<ChunkCandidate> = arbitrary();
                    let ghost now = Timestamp { secs: 0, nanos: 0 };
                    assert(may_prepare(
                        None,
                        path@,
                        content,
                        existing@,
                        force,
                        chunker,
                        segmenter,
                        none,
                        Seq::empty(),
                        now,
                    ));
                    return None;
                }
            },
            None => {},
        }
    }
    let candidates = chunker.chunk(content);
    let mut words: Vec<String> = Vec::new();
    let mut i: usize = 0;
    while i < candidates.len()
        invariant
            i <= candidates@.len(),
            words@.len() == i,
            forall|k: int|
                0 <= k < i ==> #[trigger] is_segmented(
                    segmenter,
                    candidates@[k].text@,
                    words@[k],
                ),
        decreases candidates@.len() - i,
    {
        let t = candidates[i].text.as_str();
        let w = segmenter.segment(t);
        assert(is_segmented(segmenter, candidates@[i as int].text@, w));
        words.push(w);
        i += 1;
    }
    let ghost all = words@;
    let now = utc_now();
    let r = prepare_file_at(path, content, existing, force, &candidates, words, now);
    assert(may_prepare(
        r,
        path@,
        content,
        existing@,
        force,
        chunker,
        segmenter,
        candidates,
        all,
        now,
    ));
    r
}

/// The same file is always the same document, and the same text is always the
/// same chunk.
pub proof fn law_ids_are_stable(
    a: PendingFile,
    b: PendingFile,
    path: Seq<char>,
    content: Seq<char>,
    later_content: Seq<char>,
    existing: Map<Seq<char>, Document>,
    later_existing: Map<Seq<char>, Document>,
    candidates: Seq<ChunkCandidate>,
    later_candidates: Seq<ChunkCandidate>,
    words: Seq<Seq<char>>,
    later_words: Seq<Seq<char>>,
    now: Timestamp,
    later: Timestamp,
    i: int,
    j: int,
)
    requires
        is_prepared(a, path, content, existing, candidates, words, now),
        is_prepared(b, path, later_content, later_existing, later_candidates, later_words, later),
        0 <= i < candidates.len(),
        0 <= j < later_candidates.len(),
        candidates[i].text@ == later_candidates[j].text@,
    ensures
        a.doc.id@ == b.doc.id@,
        a.chunks@[i].id@ == b.chunks@[j].id@,
{
    assert(is_chunk_of(a.chunks@[i], candidates[i], hash::text_id(path)));
    assert(is_chunk_of(b.chunks@[j], later_candidates[j], hash::text_id(path)));
}

/// A file that was stored as it was prepared is not prepared again until its
/// content changes.
pub proof fn law_stored_file_is_unchanged(
    file: PendingFile,
    path: Seq<char>,
    content: Seq<char>,
    existing: Map<Seq<char>, Document>,
    candidates: Seq<ChunkCandidate>,
    words: Seq<Seq<char>>,
    now: Timestamp,
    stored: Map<Seq<char>, Document>,
)
    requires
        is_prepared(file, path, content, existing, candidates, words, now),
        stored.contains_key(file.doc.id@),
        stored[file.doc.id@].content_hash@ == file.doc.content_hash@,
    ensures
        is_unchanged(stored, path, content),
{
}

// ---- what decides over indexing again, and what a file becomes ----

/// An index is marked with the chunk size and the overlap, in decimal, with a
/// colon between them.
pub proof fn law_mark_names_the_chunking(size: usize, overlap: usize)
    ensures
        indexing_mark(size, overlap) == text::decimal(size as nat) + seq![':'] + text::decimal(
            overlap as nat,
        ),
{
    reveal_strlit(":");
    assert(indexing_mark(size, overlap) =~= text::decimal(size as nat) + seq![':'] + text::decimal(
        overlap as nat,
    ));
}

/// Everything is indexed again where no model is known, or where its repository,
/// its file or its revision is another; the checksum does not matter, nor the
/// role.
pub proof fn law_other_model(stored: Option<ModelSpec>, current: ModelSpec)
    ensures
        stored is None ==> is_other_model(stored, current),
        stored matches Some(spec) ==> (is_other_model(stored, current) <==> spec.repo_id@
            != current.repo_id@ || spec.filename@ != current.filename@ || spec.revision@
            != current.revision@),
{
}

/// Everything is indexed again where no chunking is known, or where the mark is
/// not that of the current one.
pub proof fn law_other_chunking(stored: Option<String>, size: usize, overlap: usize)
    ensures
        stored is None ==> is_other_chunking(stored, size, overlap),
        stored matches Some(mark) ==> (is_other_chunking(stored, size, overlap) <==> mark@
            != text::decimal(size as nat) + seq![':'] + text::decimal(overlap as nat)),
{
    law_mark_names_the_chunking(size, overlap);
}

/// A path lies in a directory where it begins with all of its characters, and
/// ends there, or goes on behind a separator: a slash, or a backslash where the
/// directory does not begin with a slash.
pub proof fn law_paths_in_a_directory(path: Seq<char>, dir: Seq<char>)
    ensures
        lies_in(path, dir) <==> {
            &&& dir.len() <= path.len()
            &&& forall|i: int| 0 <= i < dir.len() ==> path[i] == #[trigger] dir[i]
            &&& {
                ||| path.len() == dir.len()
                ||| path[dir.len() as int] == '/'
                ||| path[dir.len() as int] == '\\' && (dir.len() == 0 || dir[0] != '/')
                ||| dir.len() > 0 && dir.last() == '/'
                ||| dir.len() > 0 && dir.last() == '\\' && dir[0] != '/'
            }
        },
{
    if dir.is_prefix_of(path) {
        assert forall|i: int| 0 <= i < dir.len() implies path[i] == #[trigger] dir[i] by {
            assert(path.subrange(0, dir.len() as int)[i] == path[i]);
        }
    }
    if dir.len() <= path.len() && (forall|i: int|
        0 <= i < dir.len() ==> path[i] == #[trigger] dir[i]) {
        assert(dir =~= path.subrange(0, dir.len() as int));
    }
}

/// The documents to remove come in the order in which they are listed. The result
/// gives their places.
pub proof fn law_gone_documents_in_order(
    docs: Seq<Document>,
    current: Seq<Seq<char>>,
    paths: Map<Seq<char>, Seq<char>>,
    dir: Seq<char>,
) -> (at: Seq<int>)
    ensures
        at.len() == gone_documents(docs, current, paths, dir).len(),
        forall|p: int, q: int| 0 <= p < q < at.len() ==> #[trigger] at[p] < #[trigger] at[q],
        forall|p: int|
            0 <= p < at.len() ==> 0 <= (#[trigger] at[p]) < docs.len() && docs[at[p]].id@
                == gone_documents(docs, current, paths, dir)[p],
    decreases docs.len(),
{
    if docs.len() == 0 {
        Seq::empty()
    } else {
        let front = docs.drop_last();
        let places = law_gone_documents_in_order(front, current, paths, dir);
        let rest = gone_documents(front, current, paths, dir);
        let id = docs.last().id@;
        let at = if !current.contains(id) && is_under(paths, id, dir) {
            places.push(docs.len() - 1)
        } else {
            places
        };
        assert forall|p: int| 0 <= p < at.len() implies 0 <= (#[trigger] at[p]) < docs.len()
            && docs[at[p]].id@ == gone_documents(docs, current, paths, dir)[p] by {
            if p < places.len() {
                assert(at[p] == places[p]);
                assert(front[places[p]] == docs[places[p]]);
            }
        }
        at
    }
}

/// A document is found by its id exactly if one with this id is listed; of several
/// with the same id, the last is found.
pub proof fn law_documents_are_found_by_id(docs: Seq<Document>, id: Seq<char>)
    ensures
        document_map(docs).contains_key(id) <==> exists|i: int|
            0 <= i < docs.len() && (#[trigger] docs[i]).id@ == id,
        document_map(docs).contains_key(id) ==> exists|i: int|
            0 <= i < docs.len() && #[trigger] docs[i] == document_map(docs)[id] && docs[i].id@ == id
                && forall|j: int| i < j < docs.len() ==> (#[trigger] docs[j]).id@ != id,
    decreases docs.len(),
{
    if docs.len() > 0 {
        let front = docs.drop_last();
        let last = docs.len() - 1;
        law_documents_are_found_by_id(front, id);
        if docs.last().id@ == id {
            assert(docs[last] == document_map(docs)[id]);
            assert(docs[last].id@ == id);
        } else if document_map(front).contains_key(id) {
            let i = choose|i: int|
                0 <= i < front.len() && #[trigger] front[i] == document_map(front)[id]
                    && front[i].id@ == id && forall|j: int|
                    i < j < front.len() ==> (#[trigger] front[j]).id@ != id;
            assert(docs[i] == front[i]);
            assert(docs[i].id@ == id);
            assert forall|j: int| i < j < docs.len() implies (#[trigger] docs[j]).id@ != id by {
                if j < last {
                    assert(front[j] == docs[j]);
                }
            }
        } else {
            assert forall|i: int| 0 <= i < docs.len() implies (#[trigger] docs[i]).id@ != id by {
                if i < last {
                    assert(front[i] == docs[i]);
                }
            }
        }
    }
}

/// A file becomes a document that is named by the hash of its path and holds the
/// hash and the size of its content, with one chunk for each piece that it was cut
/// into: the chunk is named by the hash of its text, belongs to the document, and
/// has the text and the place of the piece, which is embedded as it is. The words
/// are those that were found, and the file is an update where the document is
/// known.
pub proof fn law_prepared_file_is_whole(
    file: PendingFile,
    path: Seq<char>,
    content: Seq<char>,
    existing: Map<Seq<char>, Document>,
    candidates: Seq<ChunkCandidate>,
    words: Seq<Seq<char>>,
    now: Timestamp,
)
    requires
        is_prepared(file, path, content, existing, candidates, words, now),
    ensures
        file.path@ == path,
        file.doc.id@ == hash::text_id(path),
        file.doc.content_hash@ == hash::text_id(content),
        file.doc.content_size == vstd::utf8::encode_utf8(content).len(),
        file.doc.indexed_at == now,
        file.is_update <==> existing.contains_key(hash::text_id(path)),
        file.chunks@.len() == candidates.len(),
        file.chunk_texts@.len() == candidates.len(),
        forall|k: int|
            0 <= k < candidates.len() ==> {
                let chunk = #[trigger] file.chunks@[k];
                &&& chunk.id@ == hash::text_id(candidates[k].text@)
                &&& chunk.doc_id@ == hash::text_id(path)
                &&& chunk.text@ == candidates[k].text@
                &&& chunk.byte_range.start == candidates[k].byte_range.start
                &&& chunk.byte_range.end == candidates[k].byte_range.end
            },
        forall|k: int|
            0 <= k < candidates.len() ==> (#[trigger] file.chunk_texts@[k])@ == candidates[k].text@,
        file.tokenized_texts@.len() == words.len(),
        forall|k: int| 0 <= k < words.len() ==> (#[trigger] file.tokenized_texts@[k])@ == words[k],
{
    let texts = text::views(file.chunk_texts@);
    assert(texts.len() == file.chunk_texts@.len());
    assert(candidate_texts(candidates).len() == candidates.len());
    assert forall|k: int| 0 <= k < candidates.len() implies (#[trigger] file.chunk_texts@[k])@
        == candidates[k].text@ by {
        assert(texts[k] == file.chunk_texts@[k]@);
        assert(candidate_texts(candidates)[k] == candidates[k].text@);
    }
    let found = text::views(file.tokenized_texts@);
    assert(found.len() == file.tokenized_texts@.len());
    assert forall|k: int| 0 <= k < words.len() implies (#[trigger] file.tokenized_texts@[k])@
        == words[k] by {
        assert(found[k] == file.tokenized_texts@[k]@);
    }
    assert forall|k: int| 0 <= k < candidates.len() implies {
        let chunk = #[trigger] file.chunks@[k];
        &&& chunk.id@ == hash::text_id(candidates[k].text@)
        &&& chunk.doc_id@ == hash::text_id(path)
        &&& chunk.text@ == candidates[k].text@
        &&& chunk.byte_range.start == candidates[k].byte_range.start
        &&& chunk.byte_range.end == candidates[k].byte_range.end
    } by {
        assert(is_chunk_of(file.chunks@[k], candidates[k], hash::text_id(path)));
    }
}

/// A file is unchanged exactly where the document of its path is known with the
/// hash of the same content.
pub proof fn law_unchanged_files(
    existing: Map<Seq<char>, Document>,
    path: Seq<char>,
    content: Seq<char>,
)
    ensures
        is_unchanged(existing, path, content) <==> existing.contains_key(hash::text_id(path))
            && existing[hash::text_id(path)].content_hash@ == hash::text_id(content),
{
}

} // verus!
