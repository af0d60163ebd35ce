use lopdf::content::{Content, Operation};
use lopdf::{Dictionary, Document, Object, Stream};
use semquery::engine::{default_readers, PDF_READER, TEXT_READER};
use semquery::models::DocumentSource;
use semquery::reader::{PdfReader, TextFileReader};
use semquery::reader_registry::ReaderRegistry;
use semquery::traits::FileReader;

fn default_registry() -> ReaderRegistry {
    let mut reg = ReaderRegistry::new();
    reg.register(&TextFileReader::new());
    reg
}

fn name_of(path: &str) -> &str {
    path.rsplit('/').next().unwrap()
}

fn extension_of(path: &str) -> Option<&str> {
    let name = name_of(path);
    match name.rsplit_once('.') {
        Some((stem, extension)) if !stem.is_empty() => Some(extension),
        _ => None,
    }
}

/// Goes through files below a root the way a walk through directories does.
fn read_dir(reg: &ReaderRegistry, files: &[(&str, &[u8])], recursive: bool) -> Vec<DocumentSource> {
    let mut docs = Vec::new();
    for (path, bytes) in files {
        let parts: Vec<&str> = path.split('/').collect();
        if !recursive && parts.len() > 1 {
            continue;
        }
        if !parts.iter().enumerate().all(|(i, part)| reg.enters(i + 1, part)) {
            continue;
        }
        if !reg.lists(true, extension_of(path)) {
            continue;
        }
        if reg.reader_for(name_of(path), extension_of(path)) == Some(0) {
            docs.extend(TextFileReader::new().document(path, bytes.to_vec()));
        }
    }
    docs
}

#[test]
fn test_txt_reader_reads_utf8_file() {
    let reader = TextFileReader::new();
    let doc = reader.document("a.txt", b"hello world".to_vec()).unwrap();
    assert_eq!(doc.content, "hello world");
    assert_eq!(doc.path, "a.txt");
}

#[test]
fn test_txt_reader_skips_empty_file() {
    let reader = TextFileReader::new();
    assert!(reader.document("empty.txt", b"".to_vec()).is_none());
}

#[test]
fn test_txt_reader_skips_non_utf8() {
    let reader = TextFileReader::new();
    assert!(reader.document("bad.txt", vec![0xFF, 0xFE, 0xFD]).is_none());
}

#[test]
fn text_survives_reading() {
    let text = "今天是我的生日 – naïve 😀\n";
    let doc = TextFileReader::new().document("a.md", text.as_bytes().to_vec()).unwrap();
    assert_eq!(doc.content, text);
}

fn dictionary(entries: Vec<(&str, Object)>) -> Dictionary {
    let mut dict = Dictionary::new();
    for (key, value) in entries {
        dict.set(key, value);
    }
    dict
}

fn pdf_bytes_with_text(text: &str) -> Vec<u8> {
    let mut doc = Document::with_version("1.5");
    let pages_id = doc.new_object_id();
    let font_id = doc.add_object(dictionary(vec![
        ("Type", "Font".into()),
        ("Subtype", "Type1".into()),
        ("BaseFont", "Courier".into()),
    ]));
    let fonts = dictionary(vec![("F1", font_id.into())]);
    let resources_id = doc.add_object(dictionary(vec![("Font", fonts.into())]));
    let content = Content {
        operations: vec![
            Operation::new("BT", vec![]),
            Operation::new("Tf", vec!["F1".into(), 12.into()]),
            Operation::new("Td", vec![100.into(), 700.into()]),
            Operation::new("Tj", vec![Object::string_literal(text)]),
            Operation::new("ET", vec![]),
        ],
    };
    let content_id = doc.add_object(Stream::new(Dictionary::new(), content.encode().unwrap()));
    let page_id = doc.add_object(dictionary(vec![
        ("Type", "Page".into()),
        ("Parent", pages_id.into()),
        ("Contents", content_id.into()),
    ]));
    let pages = dictionary(vec![
        ("Type", "Pages".into()),
        ("Kids", vec![page_id.into()].into()),
        ("Count", 1.into()),
        ("Resources", resources_id.into()),
        ("MediaBox", vec![0.into(), 0.into(), 612.into(), 792.into()].into()),
    ]);
    doc.objects.insert(pages_id, Object::Dictionary(pages));
    let catalog_id =
        doc.add_object(dictionary(vec![("Type", "Catalog".into()), ("Pages", pages_id.into())]));
    doc.trailer.set("Root", catalog_id);
    let mut buf = Vec::new();
    doc.save_to(&mut buf).unwrap();
    buf
}

fn empty_pdf_bytes() -> Vec<u8> {
    let mut doc = Document::with_version("1.5");
    let pages_id = doc.new_object_id();
    let pages = dictionary(vec![
        ("Type", "Pages".into()),
        ("Kids", Vec::<Object>::new().into()),
        ("Count", 0.into()),
        ("MediaBox", vec![0.into(), 0.into(), 612.into(), 792.into()].into()),
    ]);
    doc.objects.insert(pages_id, Object::Dictionary(pages));
    let catalog_id =
        doc.add_object(dictionary(vec![("Type", "Catalog".into()), ("Pages", pages_id.into())]));
    doc.trailer.set("Root", catalog_id);
    let mut buf = Vec::new();
    doc.save_to(&mut buf).unwrap();
    buf
}

#[test]
fn test_pdf_reader_extracts_text() {
    let text = pdf_extract::extract_text_from_mem(&pdf_bytes_with_text("Hello PDF")).unwrap();
    let doc = PdfReader::new().document("sample.pdf", text).unwrap();
    assert!(doc.content.contains("Hello PDF"));
}

#[test]
fn test_pdf_reader_skips_empty_text() {
    let text = pdf_extract::extract_text_from_mem(&empty_pdf_bytes()).unwrap();
    let reader = PdfReader::new();
    assert!(reader.document("empty.pdf", text).is_none());
    assert!(reader.document("empty.pdf", "\n\n \u{3000}".to_string()).is_none());
}

#[test]
fn pdf_text_is_kept_as_it_is() {
    let doc = PdfReader::new().document("sample.pdf", "\n\nHello PDF\n".to_string()).unwrap();
    assert_eq!(doc.content, "\n\nHello PDF\n");
    assert_eq!(doc.path, "sample.pdf");
}

#[test]
fn readers_name_their_extensions() {
    assert_eq!(TextFileReader::new().extensions(), &["txt", "md", "tex"]);
    assert_eq!(TextFileReader::default().extensions(), &["txt", "md", "tex"]);
    assert_eq!(TextFileReader::with_extensions(&["rst"]).extensions(), &["rst"]);
    assert_eq!(PdfReader::new().extensions(), &["pdf"]);
}

#[test]
fn test_registry_txt_and_md() {
    let reg = default_registry();
    let docs = read_dir(
        &reg,
        &[("a.txt", b"hello"), ("b.md", b"# world"), ("c.bin", b"binary")],
        true,
    );
    assert_eq!(docs.len(), 2);
    let names: Vec<String> = docs.iter().map(|d| d.path.clone()).collect();
    assert!(names.contains(&"a.txt".to_string()));
    assert!(names.contains(&"b.md".to_string()));
}

#[test]
fn test_registry_ignores_hidden_and_dirs() {
    let reg = default_registry();
    let docs = read_dir(
        &reg,
        &[
            ("visible.txt", b"ok"),
            (".hidden.txt", b"hidden"),
            (".git/config", b"git stuff"),
            ("target/build.txt", b"build output"),
        ],
        true,
    );
    assert_eq!(docs.len(), 1);
    assert_eq!(docs[0].path, "visible.txt");
}

#[test]
fn test_registry_recursive() {
    let reg = default_registry();
    let files: [(&str, &[u8]); 2] = [("top.txt", b"top"), ("sub/deep.txt", b"deep")];
    let docs_recursive = read_dir(&reg, &files, true);
    assert_eq!(docs_recursive.len(), 2);

    let docs_flat = read_dir(&reg, &files, false);
    assert_eq!(docs_flat.len(), 1);
}

#[test]
fn test_registry_skips_non_utf8() {
    let reg = default_registry();
    let docs = read_dir(&reg, &[("bad.txt", &[0xFF, 0xFE, 0xFD]), ("good.txt", b"valid")], true);
    assert_eq!(docs.len(), 1);
    assert_eq!(docs[0].path, "good.txt");
}

#[test]
fn test_registry_skips_unregistered_extensions() {
    let reg = default_registry();
    let docs = read_dir(&reg, &[("a.txt", b"hello"), ("b.pdf", b"fake pdf")], true);
    assert_eq!(docs.len(), 1);
    assert_eq!(docs[0].path, "a.txt");
}

#[test]
fn test_registry_multiple_readers() {
    let mut reg = ReaderRegistry::new();
    let text = reg.register(&TextFileReader::new());
    let pdf = reg.register(&PdfReader::new());
    assert_eq!(reg.reader_for("a.txt", Some("txt")), Some(text));
    assert_eq!(reg.reader_for("b.pdf", Some("pdf")), Some(pdf));
    assert_ne!(text, pdf);
}

#[test]
fn the_last_registration_of_an_extension_counts() {
    let mut reg = ReaderRegistry::new();
    reg.register(&TextFileReader::new());
    let later = reg.register(&TextFileReader::with_extensions(&["md", "pdf"]));
    assert_eq!(reg.find_reader(Some("md")), Some(later));
    assert_eq!(reg.find_reader(Some("txt")), Some(0));
    assert_eq!(reg.find_reader(Some("tex")), Some(0));
    assert_eq!(reg.find_reader(Some("MD")), None);
    assert_eq!(reg.find_reader(None), None);
}

#[test]
fn ignored_names_are_matched_as_a_whole() {
    let reg = ReaderRegistry::default();
    for name in [".git", ".x", ".", "target", "node_modules"] {
        assert!(reg.is_ignored(name), "{name}");
    }
    for name in ["", "targets", "Target", "my_target", "node_modules2", "git"] {
        assert!(!reg.is_ignored(name), "{name}");
    }
    assert!(reg.enters(0, ".git"));
    assert!(!reg.enters(1, ".git"));
    assert!(!reg.lists(false, Some("txt")));
}

#[test]
fn engines_read_plain_text_and_pdf() {
    let reg = default_readers();
    assert_eq!(reg.find_reader(Some("tex")), Some(TEXT_READER));
    assert_eq!(reg.find_reader(Some("pdf")), Some(PDF_READER));
    assert_eq!(reg.find_reader(Some("docx")), None);
}
