//! Which files are read, and by which reader.

use glob::Pattern;
use vstd::hash_map::StringHashMap;
use vstd::prelude::*;

use crate::reader;
use crate::text;
use crate::traits::FileReader;

verus! {

/// Whether a glob pattern has no special character and no path separator.
pub open spec fn is_plain(pattern: Seq<char>) -> bool {
    forall|i: int|
        0 <= i < pattern.len() ==> (#[trigger] pattern[i]) != '?' && pattern[i] != '*' && pattern[i]
            != '[' && pattern[i] != '/' && pattern[i] != '\\'
}

/// `Pattern::new` and `Pattern::matches` of the `glob` crate: whether `name`
/// matches `pattern`, or `None` where it is not a pattern.
///
/// A pattern without special characters and separators is one, and matches
/// itself and nothing else. Others are not admitted: what a separator is depends
/// on the system.
#[verifier::external_body]
fn glob_matches(pattern: &str, name: &str) -> (r: Option<bool>)
    requires
        is_plain(pattern@),
    ensures
        r == Some(pattern@ == name@),
{
    Pattern::new(pattern).ok().map(|p| p.matches(name))
}

/// The names of directories and files that are never read.
pub open spec fn ignored_names() -> Seq<Seq<char>> {
    seq![".git"@, "target"@, "node_modules"@]
}

/// Whether a file or directory of this name is left out: it is hidden, or has
/// one of the ignored names.
pub open spec fn is_ignored_name(name: Seq<char>) -> bool {
    (name.len() > 0 && name[0] == '.') || ignored_names().contains(name)
}

/// The patterns of names that are never read.
struct IgnoreList {
    patterns: Vec<String>,
}

impl IgnoreList {
    #[verifier::type_invariant]
    spec fn is_complete(self) -> bool {
        text::views(self.patterns@) == ignored_names()
    }

    fn new() -> (r: Self)
        ensures
            text::views(r.patterns@) == ignored_names(),
    {
        let mut patterns: Vec<String> = Vec::new();
        patterns.push(".git".to_string());
        patterns.push("target".to_string());
        patterns.push("node_modules".to_string());
        assert(text::views(patterns@) =~= ignored_names());
        IgnoreList { patterns }
    }

    /// Whether some pattern matches `name`.
    fn matches(&self, name: &str) -> (r: bool)
        ensures
            r == ignored_names().contains(name@),
    {
        proof {
            use_type_invariant(self);
            lemma_ignored_are_plain();
        }
        let ghost all = ignored_names();
        let mut i: usize = 0;
        while i < self.patterns.len()
            invariant
                i <= self.patterns@.len(),
                all == ignored_names(),
                text::views(self.patterns@) == all,
                forall|k: int| 0 <= k < all.len() ==> is_plain(#[trigger] all[k]),
                forall|k: int| 0 <= k < i ==> (#[trigger] all[k]) != name@,
            decreases self.patterns@.len() - i,
        {
            assert(all[i as int] == self.patterns@[i as int]@);
            match glob_matches(self.patterns[i].as_str(), name) {
                Some(true) => {
                    assert(all.contains(all[i as int]));
                    return true;
                },
                _ => {},
            }
            i += 1;
        }
        assert(text::views(self.patterns@).len() == self.patterns@.len());
        false
    }
}

/// The readers by file extension. Readers are known by their number, in the
/// order in which they were registered.
pub struct ReaderRegistry {
    ext_map: StringHashMap<usize>,
    count: usize,
    ignored: IgnoreList,
}

/// What a [`ReaderRegistry`] holds.
pub struct RegistryView {
    pub readers: Map<Seq<char>, usize>,
    pub count: usize,
}

impl View for ReaderRegistry {
    type V = RegistryView;

    closed spec fn view(&self) -> RegistryView {
        RegistryView { readers: self.ext_map@, count: self.count }
    }
}

/// The readers after the reader `index` was registered for the first `n`
/// extensions.
pub open spec fn with_extensions(
    readers: Map<Seq<char>, usize>,
    extensions: Seq<Seq<char>>,
    n: int,
    index: usize,
) -> Map<Seq<char>, usize>
    decreases n,
{
    if n <= 0 {
        readers
    } else {
        with_extensions(readers, extensions, n - 1, index).insert(extensions[n - 1], index)
    }
}

impl Default for ReaderRegistry {
    fn default() -> (r: Self)
        ensures
            r@.readers == Map::<Seq<char>, usize>::empty(),
            r@.count == 0,
    {
        ReaderRegistry::new()
    }
}

proof fn lemma_ignored_are_plain()
    ensures
        forall|i: int| 0 <= i < ignored_names().len() ==> is_plain(#[trigger] ignored_names()[i]),
{
    reveal_strlit(".git");
    reveal_strlit("target");
    reveal_strlit("node_modules");
}

impl ReaderRegistry {
    pub fn new() -> (r: Self)
        ensures
            r@.readers == Map::<Seq<char>, usize>::empty(),
            r@.count == 0,
    {
        ReaderRegistry { ext_map: StringHashMap::new(), count: 0, ignored: IgnoreList::new() }
    }

    /// Registers a reader for its extensions, in place of any reader that
    /// handled one of them before, and returns its number.
    pub fn register<R: FileReader + ?Sized>(&mut self, reader: &R) -> (index: usize)
        requires
            old(self)@.count < usize::MAX,
        ensures
            index == old(self)@.count,
            final(self)@.count == old(self)@.count + 1,
            exists|extensions: &[&'static str]| #[trigger]
                call_ensures(R::extensions, (reader,), extensions) && final(self)@.readers
                    == with_extensions(
                    old(self)@.readers,
                    reader::names(extensions@),
                    extensions@.len() as int,
                    index,
                ),
    {
        let extensions = reader.extensions();
        let index: usize = self.count;
        let ghost before = self@;
        let ghost all = reader::names(extensions@);
        let mut i: usize = 0;
        while i < extensions.len()
            invariant
                i <= extensions@.len(),
                all == reader::names(extensions@),
                index == self@.count,
                self@.count == before.count,
                self@.readers == with_extensions(before.readers, all, i as int, index),
            decreases extensions@.len() - i,
        {
            assert(all[i as int] == extensions@[i as int]@);
            self.ext_map.insert(extensions[i].to_string(), index);
            i += 1;
        }
        self.count = index + 1;
        index
    }

    /// The number of the reader for a file extension.
    pub fn find_reader(&self, extension: Option<&str>) -> (r: Option<usize>)
        ensures
            match extension {
                Some(e) => r == if self@.readers.contains_key(e@) {
                    Some(self@.readers[e@])
                } else {
                    None
                },
                None => r is None,
            },
    {
        match extension {
            Some(e) => match self.ext_map.get(e) {
                Some(i) => Some(*i),
                None => None,
            },
            None => None,
        }
    }

    /// Whether a file or directory of this name is left out.
    pub fn is_ignored(&self, name: &str) -> (r: bool)
        ensures
            r == is_ignored_name(name@),
    {
        let chars = text::chars_of(name);
        (chars.len() > 0 && chars[0] == '.') || self.ignored.matches(name)
    }

    /// Whether a walk through a directory goes into an entry, or past it: the
    /// directory itself is always entered, and ignored names below it are not.
    pub fn enters(&self, depth: usize, name: &str) -> (r: bool)
        ensures
            r == (depth == 0 || !is_ignored_name(name@)),
    {
        depth == 0 || !self.is_ignored(name)
    }

    /// Whether an entry of a walk is listed: it is a file that some reader
    /// handles.
    pub fn lists(&self, is_file: bool, extension: Option<&str>) -> (r: bool)
        ensures
            r == (is_file && extension is Some && self@.readers.contains_key(extension.unwrap()@)),
    {
        is_file && self.find_reader(extension).is_some()
    }

    /// The number of the reader for a file: none where its name is ignored or no
    /// reader handles its extension.
    pub fn reader_for(&self, name: &str, extension: Option<&str>) -> (r: Option<usize>)
        ensures
            r == if is_ignored_name(name@) {
                None
            } else {
                match extension {
                    Some(e) => if self@.readers.contains_key(e@) {
                        Some(self@.readers[e@])
                    } else {
                        None
                    },
                    None => None,
                }
            },
    {
        if self.is_ignored(name) {
            None
        } else {
            self.find_reader(extension)
        }
    }
}

/// Registering a reader gives it all of its extensions and takes no other from
/// anyone.
pub proof fn law_registration(
    readers: Map<Seq<char>, usize>,
    extensions: Seq<Seq<char>>,
    n: int,
    index: usize,
    e: Seq<char>,
)
    requires
        0 <= n <= extensions.len(),
    ensures
        ({
            let after = with_extensions(readers, extensions, n, index);
            if extensions.take(n).contains(e) {
                after.contains_key(e) && after[e] == index
            } else {
                &&& after.contains_key(e) == readers.contains_key(e)
                &&& readers.contains_key(e) ==> after[e] == readers[e]
            }
        }),
    decreases n,
{
    if n > 0 {
        law_registration(readers, extensions, n - 1, index, e);
        let before = extensions.take(n - 1);
        let now = extensions.take(n);
        assert(now =~= before.push(extensions[n - 1]));
        if before.contains(e) {
            let k = choose|k: int| 0 <= k < before.len() && before[k] == e;
            assert(now[k] == e);
        }
        if extensions[n - 1] == e {
            assert(now[n - 1] == e);
        }
        if now.contains(e) {
            let k = choose|k: int| 0 <= k < now.len() && now[k] == e;
            if k < n - 1 {
                assert(before[k] == e);
            }
        }
    }
}

/// Names are left out that begin with a dot, and the names of build outputs and
/// of installed packages; no others are.
pub proof fn law_ignored_names(name: Seq<char>)
    ensures
        is_ignored_name(name) <==> {
            ||| name.len() > 0 && name[0] == '.'
            ||| name == "target"@
            ||| name == "node_modules"@
        },
{
    reveal_strlit(".git");
    let all = ignored_names();
    assert(all[1] == "target"@ && all[2] == "node_modules"@);
    assert(all.contains(all[1]) && all.contains(all[2]));
    if all.contains(name) {
        let k = choose|k: int| 0 <= k < all.len() && all[k] == name;
        assert(k == 0 || k == 1 || k == 2);
    }
}

} // verus!
