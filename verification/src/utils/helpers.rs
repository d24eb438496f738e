use vstd::prelude::*;
use crate::text::{preprocessed, regex_replace_all};

verus! {

/// Cleans text extracted from a PDF page: drops line feeds, then collapses
/// every run of white space into a single space.
pub fn preprocess_text(text: String) -> (r: String)
    ensures
        r@ == preprocessed(text@),
{
    let joined = regex_replace_all("\\n", text.as_str(), "");
    regex_replace_all("\\s+", joined.as_str(), " ")
}

/// The language model gave no text in its first choice.
#[derive(Debug, Clone, Copy, PartialEq, Eq)]
pub enum AskError {
    NoResponse,
}

impl AskError {
    /// The message this error is reported with.
    pub fn message(&self) -> (s: String)
        ensures
            s@ == "No response!"@,
    {
        "No response!".to_owned()
    }
}

/// The answer of a chat completion: the text of its first choice.
pub fn first_answer(contents: &Vec<Option<String>>) -> (r: Result<String, AskError>)
    requires
        contents@.len() > 0,
    ensures
        match contents@[0] {
            Some(s) => r matches Ok(t) && t@ == s@,
            None => r == Err::<String, AskError>(AskError::NoResponse),
        },
{
    match &contents[0] {
        Some(s) => Ok(s.clone()),
        None => Err(AskError::NoResponse),
    }
}

} // verus!
