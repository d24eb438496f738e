use docquery::pdf::{total_pages_chunk, PdfError};
use docquery::text::label_chunks;
use docquery::utils::chunker::{self, preprocess};
use docquery::utils::{docgpt, pdfquery};
use lopdf::content::{Content, Operation};
use lopdf::{Dictionary, Document, Object, Stream};

fn name(s: &str) -> Object {
    Object::Name(s.as_bytes().to_vec())
}

fn pdf_with_pages(texts: &[String]) -> Vec<u8> {
    let mut doc = Document::with_version("1.5");
    let pages_id = doc.new_object_id();
    let mut font = Dictionary::new();
    font.set("Type", name("Font"));
    font.set("Subtype", name("Type1"));
    font.set("BaseFont", name("Courier"));
    let font_id = doc.add_object(font);
    let mut fonts = Dictionary::new();
    fonts.set("F1", Object::Reference(font_id));
    let mut resources = Dictionary::new();
    resources.set("Font", Object::Dictionary(fonts));
    let resources_id = doc.add_object(resources);
    let mut kids = Vec::new();
    for t in texts {
        let content = Content {
            operations: vec![
                Operation::new("BT", vec![]),
                Operation::new("Tf", vec![name("F1"), Object::Integer(12)]),
                Operation::new("Td", vec![Object::Integer(100), Object::Integer(600)]),
                Operation::new("Tj", vec![Object::string_literal(t.as_str())]),
                Operation::new("ET", vec![]),
            ],
        };
        let content_id = doc.add_object(Stream::new(Dictionary::new(), content.encode().unwrap()));
        let mut page = Dictionary::new();
        page.set("Type", name("Page"));
        page.set("Parent", Object::Reference(pages_id));
        page.set("Contents", Object::Reference(content_id));
        kids.push(Object::Reference(doc.add_object(page)));
    }
    let mut pages = Dictionary::new();
    pages.set("Type", name("Pages"));
    pages.set("Count", Object::Integer(texts.len() as i64));
    pages.set("Kids", Object::Array(kids));
    pages.set("Resources", Object::Reference(resources_id));
    pages.set(
        "MediaBox",
        Object::Array(vec![
            Object::Integer(0),
            Object::Integer(0),
            Object::Integer(595),
            Object::Integer(842),
        ]),
    );
    doc.objects.insert(pages_id, Object::Dictionary(pages));
    let mut catalog = Dictionary::new();
    catalog.set("Type", name("Catalog"));
    catalog.set("Pages", Object::Reference(pages_id));
    let catalog_id = doc.add_object(catalog);
    doc.trailer.set("Root", Object::Reference(catalog_id));
    let mut out = Vec::new();
    doc.save_to(&mut out).unwrap();
    out
}

fn page_texts(pdf: &[u8]) -> Vec<String> {
    let doc = Document::load_mem(pdf).unwrap();
    let n = doc.get_pages().len() as u32;
    (1..=n).map(|p| doc.extract_text(&[p]).unwrap()).collect()
}

fn sample() -> Vec<String> {
    vec!["Hello   World".to_string(), "a".repeat(300)]
}

#[test]
fn extracted_text_is_what_was_written() {
    let pdf = pdf_with_pages(&sample());
    let texts = page_texts(&pdf);
    assert_eq!(texts.len(), 2);
    assert!(preprocess(texts[0].clone()).contains("Hello World"));
}

#[test]
fn chunker_chunks_every_page_with_citation() {
    let pdf = pdf_with_pages(&sample());
    let texts = page_texts(&pdf);
    let mut expected = Vec::new();
    for (i, t) in texts.iter().enumerate() {
        expected.extend(label_chunks(i + 1, &preprocess(t.clone())));
    }
    let got = chunker::chunk(&pdf).unwrap();
    assert_eq!(got, expected);
    assert!(got[0].starts_with("[1] "));
    assert!(got.last().unwrap().starts_with("[2] "));
    assert!(got.iter().all(|c| c.chars().count() <= 200 + 4));
}

#[test]
fn docgpt_chunks_start_with_page_count() {
    let pdf = pdf_with_pages(&sample());
    let got = docgpt::chunk(&pdf).unwrap();
    assert_eq!(got[0], "[0] Total pages in the PDF - 2");
    assert_eq!(got[1..].to_vec(), chunker::chunk(&pdf).unwrap());
}

#[test]
fn pdfquery_lines_per_page_then_count() {
    let pdf = pdf_with_pages(&sample());
    let texts = page_texts(&pdf);
    let got = pdfquery::chunk(&pdf).unwrap();
    assert_eq!(
        got,
        vec![
            format!("[1] {}", preprocess(texts[0].clone())),
            format!("[2] {}", preprocess(texts[1].clone())),
            "[0] Total pages in the PDF - 2".to_string(),
        ]
    );
}

#[test]
fn unreadable_pdf_is_refused() {
    let junk = b"this is not a pdf".to_vec();
    let text = Document::load_mem(&junk).unwrap_err().to_string();
    assert_eq!(chunker::chunk(&junk).unwrap_err(), PdfError::Unreadable(text.clone()));
    assert_eq!(docgpt::chunk(&junk).unwrap_err(), PdfError::Unreadable(text.clone()));
    assert_eq!(pdfquery::chunk(&junk).unwrap_err(), PdfError::Unreadable(text));
}

#[test]
fn more_than_200_pages_is_too_large_for_pdfquery() {
    let texts: Vec<String> = (0..201).map(|i| format!("page {i}")).collect();
    let pdf = pdf_with_pages(&texts);
    assert_eq!(pdfquery::chunk(&pdf).unwrap_err(), PdfError::TooLarge);
    assert_eq!(pdfquery::chunk(&pdf), pdfquery::chunk(&pdf));
    let chunks = docgpt::chunk(&pdf).unwrap();
    assert_eq!(chunks[0], "[0] Total pages in the PDF - 201");
    assert_eq!(chunks.len(), 202);
}

#[test]
fn exactly_200_pages_is_accepted() {
    let texts: Vec<String> = (0..200).map(|i| format!("p{i}")).collect();
    let pdf = pdf_with_pages(&texts);
    let lines = pdfquery::chunk(&pdf).unwrap();
    assert_eq!(lines.len(), 201);
    assert_eq!(lines[200], "[0] Total pages in the PDF - 200");
    assert!(lines[199].starts_with("[200] "));
}

#[test]
fn empty_document_has_only_the_count() {
    let pdf = pdf_with_pages(&[]);
    assert_eq!(pdfquery::chunk(&pdf).unwrap(), vec!["[0] Total pages in the PDF - 0".to_string()]);
    assert_eq!(docgpt::chunk(&pdf).unwrap(), vec![total_pages_chunk(0)]);
    assert!(chunker::chunk(&pdf).unwrap().is_empty());
}

#[test]
fn pdf_error_messages() {
    assert_eq!(PdfError::TooLarge.message(), "PDF is too large!");
    assert_eq!(PdfError::Unreadable("bad xref".to_string()).message(), "bad xref");
    assert_eq!(PdfError::PageText(3, "no font".to_string()).message(), "no font");
    let junk = b"%PDF-nothing".to_vec();
    let text = Document::load_mem(&junk).unwrap_err().to_string();
    assert_eq!(pdfquery::chunk(&junk).unwrap_err().message(), text);
}
