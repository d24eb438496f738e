# docquery

Back end that answers questions about an uploaded PDF: the text of each page
is cleaned and cut into chunks that cite their page, the chunks are embedded
and stored under a random key, and a question is answered from the three
chunks most similar to it.

- `src/` is the verified library (Verus): text clean-up (`text`), PDF text
  extraction through lopdf (`pdf`), the document store (`store`), ranking of
  chunks (`ranking`), prompt assembly (`prompt`), random keys (`keys`), JPEG
  re-encoding through `image` (`picture`), and the service operations under
  `utils/`.
- `app/` is the HTTP server (actix-web), the embedding model (rust-bert),
  similarity scores (floating point), the chat-completion call, Redis and
  file output.
- `tests/` runs the library on concrete inputs.
