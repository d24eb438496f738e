use vstd::prelude::*;
use vstd::hash_map::StringHashMap;

verus! {

/// Why a question about a stored document cannot be answered.
#[derive(Debug, Clone, Copy, PartialEq, Eq)]
pub enum QueryError {
    /// No chunks are stored under the id ("Invalid PDF ID").
    InvalidPdfId,
    /// No embeddings are stored under the id ("Invalid Embeddings ID!").
    InvalidEmbeddingsId,
}

/// The message a lookup error is reported with.
pub open spec fn query_error_text(e: QueryError) -> Seq<char> {
    match e {
        QueryError::InvalidPdfId => "Invalid PDF ID"@,
        QueryError::InvalidEmbeddingsId => "Invalid Embeddings ID!"@,
    }
}

impl QueryError {
    /// The message this error is reported with.
    pub fn message(&self) -> (s: String)
        ensures
            s@ == query_error_text(*self),
    {
        match self {
            QueryError::InvalidPdfId => "Invalid PDF ID".to_owned(),
            QueryError::InvalidEmbeddingsId => "Invalid Embeddings ID!".to_owned(),
        }
    }
}

/// What looking up `id` finds, given the chunks and the embeddings stored by
/// document id: the chunk list is consulted first.
pub open spec fn lookup<E>(
    chunks: Map<Seq<char>, Vec<String>>,
    embeddings: Map<Seq<char>, E>,
    id: Seq<char>,
) -> Result<(Vec<String>, E), QueryError> {
    if !chunks.contains_key(id) {
        Err(QueryError::InvalidPdfId)
    } else if !embeddings.contains_key(id) {
        Err(QueryError::InvalidEmbeddingsId)
    } else {
        Ok((chunks[id], embeddings[id]))
    }
}

/// The uploaded documents: the text chunks of each document and their
/// embeddings (of type `E`), both by document id.
#[verifier::reject_recursive_types(E)]
pub struct DocumentStore<E> {
    chunks: StringHashMap<Vec<String>>,
    embeddings: StringHashMap<E>,
}

impl<E> DocumentStore<E> {
    /// The chunk lists by document id.
    pub closed spec fn chunk_map(&self) -> Map<Seq<char>, Vec<String>> {
        self.chunks@
    }

    /// The embeddings by document id.
    pub closed spec fn embedding_map(&self) -> Map<Seq<char>, E> {
        self.embeddings@
    }

    /// Chunks and embeddings are stored under the same ids.
    pub open spec fn same_ids(&self) -> bool {
        self.chunk_map().dom() == self.embedding_map().dom()
    }

    /// An empty store.
    pub fn new() -> (s: Self)
        ensures
            s.same_ids(),
            s.chunk_map() == Map::<Seq<char>, Vec<String>>::empty(),
            s.embedding_map() == Map::<Seq<char>, E>::empty(),
    {
        DocumentStore { chunks: StringHashMap::new(), embeddings: StringHashMap::new() }
    }

    /// Stores the chunks and the embeddings of a document under `key`,
    /// replacing what was stored under it before.
    pub fn insert(&mut self, key: String, chunks: Vec<String>, embeddings: E)
        ensures
            final(self).chunk_map() == old(self).chunk_map().insert(key@, chunks),
            final(self).embedding_map() == old(self).embedding_map().insert(key@, embeddings),
            old(self).same_ids() ==> final(self).same_ids(),
    {
        let k2 = key.clone();
        self.embeddings.insert(k2, embeddings);
        self.chunks.insert(key, chunks);
    }

    /// Forgets every document.
    pub fn clear(&mut self)
        ensures
            final(self).chunk_map() == Map::<Seq<char>, Vec<String>>::empty(),
            final(self).embedding_map() == Map::<Seq<char>, E>::empty(),
            final(self).same_ids(),
    {
        self.embeddings.clear();
        self.chunks.clear();
    }

    /// The chunks and the embeddings stored under `id`.
    pub fn get(&self, id: &str) -> (r: Result<(&Vec<String>, &E), QueryError>)
        ensures
            match r {
                Ok((c, e)) => lookup(self.chunk_map(), self.embedding_map(), id@) == Ok::<
                    (Vec<String>, E),
                    QueryError,
                >((*c, *e)),
                Err(err) => lookup(self.chunk_map(), self.embedding_map(), id@) == Err::<
                    (Vec<String>, E),
                    QueryError,
                >(err),
            },
    {
        let chunks = match self.chunks.get(id) {
            Some(c) => c,
            None => {
                return Err(QueryError::InvalidPdfId);
            },
        };
        let embeddings = match self.embeddings.get(id) {
            Some(e) => e,
            None => {
                return Err(QueryError::InvalidEmbeddingsId);
            },
        };
        Ok((chunks, embeddings))
    }
}

/// A read gives back what the last write under the same id stored.
pub proof fn lemma_lookup_after_insert<E>(
    chunks: Map<Seq<char>, Vec<String>>,
    embeddings: Map<Seq<char>, E>,
    key: Seq<char>,
    c: Vec<String>,
    e: E,
)
    ensures
        lookup(chunks.insert(key, c), embeddings.insert(key, e), key) == Ok::<
            (Vec<String>, E),
            QueryError,
        >((c, e)),
{
}

/// Storing a document leaves what every other id finds unchanged.
pub proof fn lemma_insert_keeps_others<E>(
    chunks: Map<Seq<char>, Vec<String>>,
    embeddings: Map<Seq<char>, E>,
    key: Seq<char>,
    c: Vec<String>,
    e: E,
    id: Seq<char>,
)
    requires
        id != key,
    ensures
        lookup(chunks.insert(key, c), embeddings.insert(key, e), id) == lookup(
            chunks,
            embeddings,
            id,
        ),
{
}

/// While chunks and embeddings are stored under the same ids, a lookup never
/// finds the chunks of a document without its embeddings.
pub proof fn lemma_same_ids_find_both<E>(
    chunks: Map<Seq<char>, Vec<String>>,
    embeddings: Map<Seq<char>, E>,
    id: Seq<char>,
)
    requires
        chunks.dom() == embeddings.dom(),
    ensures
        lookup(chunks, embeddings, id) != Err::<(Vec<String>, E), QueryError>(
            QueryError::InvalidEmbeddingsId,
        ),
{
    if chunks.contains_key(id) {
        assert(embeddings.dom().contains(id));
    }
}

/// After the store is cleared, every id is unknown.
pub proof fn lemma_lookup_after_clear<E>(id: Seq<char>)
    ensures
        lookup(Map::<Seq<char>, Vec<String>>::empty(), Map::<Seq<char>, E>::empty(), id) == Err::<
            (Vec<String>, E),
            QueryError,
        >(QueryError::InvalidPdfId),
{
}

} // verus!
