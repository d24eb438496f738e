use docquery::prompt::ranked_prompt_for;
use docquery::store::{DocumentStore, QueryError};
use docquery::utils::data::Query;
use docquery::utils::docgpt;
use docquery::utils::helpers::{first_answer, AskError};
use docquery::utils::pdfquery;

fn chunks() -> Vec<String> {
    vec![
        "[1] alpha".to_string(),
        "[1] beta".to_string(),
        "[2] gamma".to_string(),
        "[0] Total pages in the PDF - 2".to_string(),
    ]
}

#[test]
fn store_gives_back_what_was_stored() {
    let mut store: DocumentStore<Vec<u8>> = DocumentStore::new();
    store.insert("k1".to_string(), chunks(), vec![1, 2]);
    store.insert("k2".to_string(), vec!["[1] other".to_string()], vec![3]);
    let (c, e) = store.get("k1").unwrap();
    assert_eq!(c, &chunks());
    assert_eq!(e, &vec![1, 2]);
    let (c2, _) = store.get("k2").unwrap();
    assert_eq!(c2, &vec!["[1] other".to_string()]);
}

#[test]
fn store_replaces_on_same_key() {
    let mut store: DocumentStore<u8> = DocumentStore::new();
    store.insert("k".to_string(), chunks(), 1);
    store.insert("k".to_string(), vec![], 2);
    let (c, e) = store.get("k").unwrap();
    assert!(c.is_empty());
    assert_eq!(*e, 2);
}

#[test]
fn unknown_id_is_invalid_pdf_id() {
    let store: DocumentStore<u8> = DocumentStore::new();
    assert_eq!(store.get("nope").unwrap_err(), QueryError::InvalidPdfId);
}

#[test]
fn clear_forgets_everything() {
    let mut store: DocumentStore<u8> = DocumentStore::new();
    store.insert("a".to_string(), chunks(), 0);
    pdfquery::clear(&mut store);
    assert_eq!(store.get("a").unwrap_err(), QueryError::InvalidPdfId);
}

#[test]
fn pdfquery_prompt_uses_best_three_chunks() {
    let mut store: DocumentStore<()> = DocumentStore::new();
    store.insert("doc".to_string(), chunks(), ());
    let prompt = pdfquery::query(&store, "doc", "What is beta?", &vec![1, 9, 5, 5]).unwrap();
    assert_eq!(
        prompt,
        "PDF chunks:\n [1] beta\n[2] gamma\n[0] Total pages in the PDF - 2\nUser-query: What is beta?"
    );
}

#[test]
fn docgpt_prompt_uses_best_three_chunks() {
    let mut store: DocumentStore<()> = DocumentStore::new();
    store.insert("doc".to_string(), chunks(), ());
    let prompt = docgpt::query(&store, "doc", "q", &vec![7, 7, 7, 8]).unwrap();
    assert_eq!(
        prompt,
        "PDF contents:\n [0] Total pages in the PDF - 2\n[1] alpha\n[1] beta\nUser-query: q"
    );
}

#[test]
fn prompt_for_unknown_document_fails() {
    let store: DocumentStore<()> = DocumentStore::new();
    assert_eq!(pdfquery::query(&store, "x", "q", &vec![]).unwrap_err(), QueryError::InvalidPdfId);
    assert_eq!(docgpt::query(&store, "x", "q", &vec![]).unwrap_err(), QueryError::InvalidPdfId);
    assert_eq!(
        ranked_prompt_for("H ", &store, "x", "q", &vec![]).unwrap_err(),
        QueryError::InvalidPdfId
    );
}

#[test]
fn query_body_holds_its_fields() {
    let q = Query { id: "abc".to_string(), question: "why?".to_string() };
    let copy = q.clone();
    assert_eq!(copy.id, "abc");
    assert_eq!(copy.question, "why?");
}

#[test]
fn first_answer_takes_first_choice() {
    assert_eq!(first_answer(&vec![Some("yes".to_string()), None]).unwrap(), "yes");
    assert_eq!(first_answer(&vec![None, Some("no".to_string())]).unwrap_err(), AskError::NoResponse);
}

#[test]
fn prompt_accepts_extra_scores_when_top_is_in_range() {
    let mut store: DocumentStore<()> = DocumentStore::new();
    store.insert("doc".to_string(), chunks(), ());
    let prompt = pdfquery::query(&store, "doc", "q", &vec![9, 8, 7, 0, 0, 0]).unwrap();
    assert_eq!(
        prompt,
        "PDF chunks:\n [1] alpha\n[1] beta\n[2] gamma\nUser-query: q"
    );
}

#[test]
fn stored_documents_are_found_with_embeddings() {
    let mut store: DocumentStore<u8> = DocumentStore::new();
    store.insert("a".to_string(), chunks(), 1);
    store.insert("b".to_string(), vec![], 2);
    pdfquery::clear(&mut store);
    store.insert("c".to_string(), chunks(), 3);
    assert!(store.get("c").is_ok());
    assert_eq!(store.get("a").unwrap_err(), QueryError::InvalidPdfId);
}

#[test]
fn error_messages() {
    assert_eq!(QueryError::InvalidPdfId.message(), "Invalid PDF ID");
    assert_eq!(QueryError::InvalidEmbeddingsId.message(), "Invalid Embeddings ID!");
    assert_eq!(AskError::NoResponse.message(), "No response!");
}
