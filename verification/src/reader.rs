//! Readers for document files.
//!
//! The caller reads the bytes of a file; what becomes of them is decided here.

use vstd::prelude::*;
use vstd::utf8::*;

use crate::models::DocumentSource;
use crate::text;
use crate::traits::FileReader;

verus! {

/// `String::from_utf8`: the text that `bytes` encode, or `None` where they are
/// not valid UTF-8.
#[verifier::external_body]
fn from_utf8(bytes: Vec<u8>) -> (r: Option<String>)
    ensures
        match r {
            Some(s) => valid_utf8(bytes@) && s@ == decode_utf8(bytes@),
            None => !valid_utf8(bytes@),
        },
{
    String::from_utf8(bytes).ok()
}

/// Whether `doc` is the document at `path` with the given text.
pub open spec fn is_document(doc: DocumentSource, path: Seq<char>, content: Seq<char>) -> bool {
    doc.path@ == path && doc.content@ == content
}

// ---- plain text ----

/// Reads plain text files.
pub struct TextFileReader {
    extensions: Vec<&'static str>,
}

/// The views of a list of names.
pub open spec fn names(list: Seq<&'static str>) -> Seq<Seq<char>> {
    list.map_values(|s: &'static str| s@)
}

impl Default for TextFileReader {
    fn default() -> (r: Self)
        ensures
            r.handles() == seq!["txt"@, "md"@, "tex"@],
    {
        TextFileReader::new()
    }
}

impl TextFileReader {
    /// The file extensions that the reader handles.
    pub closed spec fn handles(&self) -> Seq<Seq<char>> {
        names(self.extensions@)
    }

    pub fn new() -> (r: Self)
        ensures
            r.handles() == seq!["txt"@, "md"@, "tex"@],
    {
        let r = TextFileReader::with_extensions(&["txt", "md", "tex"]);
        assert(r.handles() =~= seq!["txt"@, "md"@, "tex"@]);
        r
    }

    pub fn with_extensions(extensions: &[&'static str]) -> (r: Self)
        ensures
            r.handles() == names(extensions@),
    {
        let mut list: Vec<&'static str> = Vec::new();
        let mut i: usize = 0;
        while i < extensions.len()
            invariant
                i <= extensions@.len(),
                list@ == extensions@.take(i as int),
            decreases extensions@.len() - i,
        {
            list.push(extensions[i]);
            assert(list@ =~= extensions@.take(i + 1));
            i += 1;
        }
        assert(list@ =~= extensions@);
        TextFileReader { extensions: list }
    }

    /// The document that the bytes of a file are. Empty files and files that
    /// are not UTF-8 are left out.
    pub fn document(&self, path: &str, bytes: Vec<u8>) -> (r: Option<DocumentSource>)
        ensures
            r is None <==> bytes@.len() == 0 || !valid_utf8(bytes@),
            r matches Some(doc) ==> is_document(doc, path@, decode_utf8(bytes@)),
    {
        match from_utf8(bytes) {
            Some(content) => {
                proof {
                    decode_utf8_encode_utf8(bytes@);
                    if bytes@.len() > 0 {
                        reveal_with_fuel(decode_utf8, 2);
                    }
                }
                if content.as_str().is_empty() {
                    None
                } else {
                    Some(DocumentSource { path: path.to_string(), content })
                }
            },
            None => None,
        }
    }
}

impl FileReader for TextFileReader {
    fn extensions(&self) -> (r: &[&'static str])
        ensures
            names(r@) == self.handles(),
    {
        self.extensions.as_slice()
    }
}

// ---- PDF ----

/// Reads PDF files.
pub struct PdfReader;

impl Default for PdfReader {
    fn default() -> (r: Self)
        ensures
            r == PdfReader,
    {
        PdfReader::new()
    }
}

impl PdfReader {
    pub fn new() -> (r: Self)
        ensures
            r == PdfReader,
    {
        PdfReader
    }

    /// The document with the text that was found in a file. Files without any
    /// text are left out.
    pub fn document(&self, path: &str, content: String) -> (r: Option<DocumentSource>)
        ensures
            r is None <==> text::blank(content@),
            r matches Some(doc) ==> is_document(doc, path@, content@),
    {
        if text::is_blank(content.as_str()) {
            None
        } else {
            Some(DocumentSource { path: path.to_string(), content })
        }
    }
}

impl FileReader for PdfReader {
    fn extensions(&self) -> (r: &[&'static str])
        ensures
            names(r@) == seq!["pdf"@],
    {
        let r: &[&'static str] = &["pdf"];
        assert(names(r@) =~= seq!["pdf"@]);
        r
    }
}

/// Reading back the UTF-8 bytes of a text gives the text.
pub proof fn law_text_round_trip(content: Seq<char>)
    ensures
        valid_utf8(encode_utf8(content)),
        decode_utf8(encode_utf8(content)) == content,
{
    encode_utf8_valid_utf8(content);
    encode_utf8_decode_utf8(content);
}

} // verus!
