use vstd::prelude::*;
use crate::pdf::{cited_document, load_pdf, page_count, chunk_pages, result_views, PdfError};
use crate::text::{preprocessed, regex_replace_all};

verus! {

/// Cleans text extracted from a PDF page: drops line feeds, then collapses
/// every run of white space into a single space.
pub fn preprocess(text: String) -> (r: String)
    ensures
        r@ == preprocessed(text@),
{
    let joined = regex_replace_all("\\n", text.as_str(), "");
    regex_replace_all("\\s+", joined.as_str(), " ")
}

/// Turns a PDF into the chunks that are pushed to the chunk list: every page,
/// in order, cleaned and cut into pieces of at most 200 characters, each
/// piece starting with its page citation `[page] `.
pub fn chunk(pdf: &[u8]) -> (r: Result<Vec<String>, PdfError>)
    ensures
        result_views(r) == cited_document(pdf@),
{
    let doc = match load_pdf(pdf) {
        Ok(doc) => doc,
        Err(m) => {
            return Err(PdfError::Unreadable(m));
        },
    };
    let n = page_count(&doc);
    chunk_pages(&doc, n)
}

} // verus!
