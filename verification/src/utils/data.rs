use vstd::prelude::*;

verus! {

/// A question about an uploaded document, as the query endpoint receives it.
#[derive(Debug, Clone)]
pub struct Query {
    /// The key the document was stored under.
    pub id: String,
    /// The question.
    pub question: String,
}

} // verus!
