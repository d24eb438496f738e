use vstd::prelude::*;
use crate::pdf::views;
use crate::ranking::{top_indices, top_positions};
use crate::store::{lookup, DocumentStore, QueryError};

verus! {

/// How many chunks go into a prompt.
pub const TOP_CHUNKS: usize = 3;

/// The prompt: `header`, the three chunks at positions `top` separated by
/// line feeds, then the question after `User-query: `.
pub open spec fn ranked_prompt(
    header: Seq<char>,
    chunks: Seq<Seq<char>>,
    top: Seq<usize>,
    question: Seq<char>,
) -> Seq<char> {
    header + chunks[top[0] as int] + "\n"@ + chunks[top[1] as int] + "\n"@ + chunks[top[2] as int]
        + "\nUser-query: "@ + question
}

/// What a question about document `id` yields: the lookup error, or the
/// prompt built from the document's chunks ranked by `ranking`.
pub open spec fn prompt_outcome<E>(
    header: Seq<char>,
    chunks: Map<Seq<char>, Vec<String>>,
    embeddings: Map<Seq<char>, E>,
    id: Seq<char>,
    question: Seq<char>,
    ranking: Seq<u32>,
) -> Result<Seq<char>, QueryError> {
    match lookup(chunks, embeddings, id) {
        Err(e) => Err(e),
        Ok((c, _)) => Ok(
            ranked_prompt(header, views(c@), top_positions(ranking, TOP_CHUNKS as nat), question),
        ),
    }
}

/// Once a document's chunks and embeddings are stored under `key`, a
/// question about `key` is not refused: its prompt is built from exactly the
/// chunks stored there.
pub proof fn lemma_prompt_after_insert<E>(
    header: Seq<char>,
    chunks: Map<Seq<char>, Vec<String>>,
    embeddings: Map<Seq<char>, E>,
    key: Seq<char>,
    c: Vec<String>,
    e: E,
    question: Seq<char>,
    ranking: Seq<u32>,
)
    ensures
        prompt_outcome(header, chunks.insert(key, c), embeddings.insert(key, e), key, question, ranking)
            == Ok::<Seq<char>, QueryError>(
            ranked_prompt(header, views(c@), top_positions(ranking, TOP_CHUNKS as nat), question),
        ),
{
}

/// The prompt holds the header at its start, each of the three chosen
/// chunks whole and in ranking order, each followed by a line feed (the last
/// by `\nUser-query: `), and the question at its end; nothing else.
pub proof fn lemma_prompt_holds_chunks_whole(
    header: Seq<char>,
    chunks: Seq<Seq<char>>,
    top: Seq<usize>,
    question: Seq<char>,
)
    requires
        top.len() >= 3,
        forall|a: int| 0 <= a < 3 ==> #[trigger] top[a] < chunks.len(),
    ensures
        ({
            let p = ranked_prompt(header, chunks, top, question);
            let c0 = chunks[top[0] as int];
            let c1 = chunks[top[1] as int];
            let c2 = chunks[top[2] as int];
            let o0: int = header.len() as int;
            let o1: int = o0 + c0.len() + 1;
            let o2: int = o1 + c1.len() + 1;
            let o3: int = o2 + c2.len();
            &&& p.len() == o3 + 13 + question.len()
            &&& p.take(o0) == header
            &&& p.subrange(o0, o0 + c0.len()) == c0
            &&& p[o0 + c0.len()] == '\n'
            &&& p.subrange(o1, o1 + c1.len()) == c1
            &&& p[o1 + c1.len()] == '\n'
            &&& p.subrange(o2, o3) == c2
            &&& p.subrange(o3, o3 + 13) == "\nUser-query: "@
            &&& p.skip(o3 + 13) == question
        }),
{
    reveal_strlit("\n");
    reveal_strlit("\nUser-query: ");
    let p = ranked_prompt(header, chunks, top, question);
    let c0 = chunks[top[0] as int];
    let c1 = chunks[top[1] as int];
    let c2 = chunks[top[2] as int];
    let o0: int = header.len() as int;
    let o1: int = o0 + c0.len() + 1;
    let o2: int = o1 + c1.len() + 1;
    let o3: int = o2 + c2.len();
    assert(p =~= header + c0 + seq!['\n'] + c1 + seq!['\n'] + c2 + "\nUser-query: "@ + question);
    assert(p.take(o0) =~= header);
    assert(p.subrange(o0, o0 + c0.len()) =~= c0);
    assert(p.subrange(o1, o1 + c1.len()) =~= c1);
    assert(p.subrange(o2, o3) =~= c2);
    assert(p.subrange(o3, o3 + 13) =~= "\nUser-query: "@);
    assert(p.skip(o3 + 13) =~= question);
}

/// A prompt outcome by the contents of the prompt.
pub open spec fn prompt_result(r: Result<String, QueryError>) -> Result<Seq<char>, QueryError> {
    match r {
        Ok(p) => Ok(p@),
        Err(e) => Err(e),
    }
}

/// Looks up document `id` and builds the prompt from its three best-ranked
/// chunks (scores in `ranking`, one per chunk, higher is more similar; best
/// first, ties in chunk order) and the question.
pub fn ranked_prompt_for<E>(
    header: &str,
    store: &DocumentStore<E>,
    id: &str,
    question: &str,
    ranking: &Vec<u32>,
) -> (r: Result<String, QueryError>)
    requires
        lookup(store.chunk_map(), store.embedding_map(), id@) is Ok ==> {
            &&& TOP_CHUNKS <= ranking@.len()
            &&& forall|a: int|
                0 <= a < TOP_CHUNKS ==> #[trigger] top_positions(ranking@, TOP_CHUNKS as nat)[a]
                    < store.chunk_map()[id@]@.len()
        },
    ensures
        prompt_result(r) == prompt_outcome(
            header@,
            store.chunk_map(),
            store.embedding_map(),
            id@,
            question@,
            ranking@,
        ),
        r matches Ok(p) ==> {
            let c = views(store.chunk_map()[id@]@);
            let t = top_positions(ranking@, TOP_CHUNKS as nat);
            p@ == header@ + c[t[0] as int] + "\n"@ + c[t[1] as int] + "\n"@ + c[t[2] as int]
                + "\nUser-query: "@ + question@
        },
{
    let (chunks, _embeddings) = match store.get(id) {
        Ok(found) => found,
        Err(e) => {
            return Err(e);
        },
    };
    let top = top_indices(ranking, TOP_CHUNKS);
    let p = header.to_owned().concat(chunks[top[0]].as_str()).concat("\n").concat(
        chunks[top[1]].as_str(),
    ).concat("\n").concat(chunks[top[2]].as_str()).concat("\nUser-query: ").concat(question);
    Ok(p)
}

} // verus!
