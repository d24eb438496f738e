use vstd::prelude::*;
use crate::prompt::{prompt_outcome, prompt_result, ranked_prompt_for, TOP_CHUNKS};
use crate::ranking::top_positions;
use crate::store::{lookup, DocumentStore, QueryError};
use crate::pdf::{counted_document, load_pdf, page_count, chunk_pages, result_views, total_pages_chunk, total_pages_line, views, PdfError};

verus! {

/// Turns a PDF into the chunks that are embedded and stored: first the chunk
/// `[0] Total pages in the PDF - n`, then every page, cleaned and cut into
/// cited pieces of at most 200 characters.
pub fn chunk(pdf: &[u8]) -> (r: Result<Vec<String>, PdfError>)
    ensures
        result_views(r) == counted_document(pdf@),
{
    let doc = match load_pdf(pdf) {
        Ok(doc) => doc,
        Err(m) => {
            return Err(PdfError::Unreadable(m));
        },
    };
    let n = page_count(&doc);
    let mut chunks: Vec<String> = Vec::new();
    chunks.push(total_pages_chunk(n));
    let mut pages = match chunk_pages(&doc, n) {
        Ok(pages) => pages,
        Err(e) => {
            return Err(e);
        },
    };
    let ghost head = chunks@;
    let ghost added = pages@;
    chunks.append(&mut pages);
    assert(views(chunks@) =~= views(head) + views(added));
    assert(views(head) =~= seq![total_pages_line(n as nat)]);
    Ok(chunks)
}

/// Builds the prompt that answers `question` about document `id`: the three
/// chunks whose scores in `ranking` (one per chunk, higher is more similar)
/// are best, best first and ties in chunk order, then the question.
pub fn query<E>(store: &DocumentStore<E>, id: &str, question: &str, ranking: &Vec<u32>) -> (r: Result<
    String,
    QueryError,
>)
    requires
        lookup(store.chunk_map(), store.embedding_map(), id@) is Ok ==> {
            &&& TOP_CHUNKS <= ranking@.len()
            &&& forall|a: int|
                0 <= a < TOP_CHUNKS ==> #[trigger] top_positions(ranking@, TOP_CHUNKS as nat)[a]
                    < store.chunk_map()[id@]@.len()
        },
    ensures
        prompt_result(r) == prompt_outcome(
            "PDF contents:\n "@,
            store.chunk_map(),
            store.embedding_map(),
            id@,
            question@,
            ranking@,
        ),
{
    ranked_prompt_for("PDF contents:\n ", store, id, question, ranking)
}

} // verus!
