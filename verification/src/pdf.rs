use vstd::prelude::*;
use crate::text::{joined, lemma_chunks_are_runs, lemma_page_label_cites, lemma_chunks_reassemble, CHUNK_CHARS, chunks_of, decimal, decimal_string, label_chunks, page_label, page_label_string, preprocessed};
use crate::utils::chunker::preprocess;

verus! {

/// Why a PDF could not be turned into text chunks.
#[derive(Debug, PartialEq, Eq)]
pub enum PdfError {
    /// lopdf could not load the document; lopdf's error text.
    Unreadable(String),
    /// The document has more pages than the service accepts.
    TooLarge,
    /// lopdf could not extract the text of this page; lopdf's error text.
    PageText(u32, String),
    /// A page number does not fit the `u32` that lopdf takes.
    PageNumberOutOfRange,
}

/// A `PdfError` with its texts as character sequences.
pub enum PdfFailure {
    Unreadable(Seq<char>),
    TooLarge,
    PageText(u32, Seq<char>),
    PageNumberOutOfRange,
}

impl View for PdfError {
    type V = PdfFailure;

    open spec fn view(&self) -> PdfFailure {
        match self {
            PdfError::Unreadable(m) => PdfFailure::Unreadable(m@),
            PdfError::TooLarge => PdfFailure::TooLarge,
            PdfError::PageText(p, m) => PdfFailure::PageText(*p, m@),
            PdfError::PageNumberOutOfRange => PdfFailure::PageNumberOutOfRange,
        }
    }
}

/// The message an error is reported with.
pub open spec fn pdf_error_text(e: PdfFailure) -> Seq<char> {
    match e {
        PdfFailure::Unreadable(m) => m,
        PdfFailure::TooLarge => "PDF is too large!"@,
        PdfFailure::PageText(_, m) => m,
        PdfFailure::PageNumberOutOfRange => "out of range integral type conversion attempted"@,
    }
}

impl PdfError {
    /// The message this error is reported with: lopdf's own text where
    /// lopdf failed.
    pub fn message(&self) -> (s: String)
        ensures
            s@ == pdf_error_text(self@),
    {
        match self {
            PdfError::Unreadable(m) => m.clone(),
            PdfError::TooLarge => "PDF is too large!".to_owned(),
            PdfError::PageText(_, m) => m.clone(),
            PdfError::PageNumberOutOfRange => "out of range integral type conversion attempted".to_owned(),
        }
    }
}

#[verifier::external_type_specification]
#[verifier::external_body]
pub struct ExLopdfDocument(lopdf::Document);

/// A document loaded by lopdf, together with the bytes it was loaded from.
/// Only `load_pdf` builds one.
pub struct PdfDocument {
    doc: lopdf::Document,
    source: Ghost<Seq<u8>>,
}

impl PdfDocument {
    /// The bytes the document was loaded from.
    pub closed spec fn source(&self) -> Seq<u8> {
        self.source@
    }
}

/// What lopdf's loader says of the bytes `pdf`: `None` when it loads them,
/// else the text of its error.
pub uninterp spec fn pdf_load_error(pdf: Seq<u8>) -> Option<Seq<char>>;

/// The number of pages of the document lopdf loads from `pdf`.
pub uninterp spec fn pdf_page_count_of(pdf: Seq<u8>) -> nat;

/// The text lopdf extracts from page `page` (numbered from 1) of the
/// document loaded from `pdf`, or the text of its error.
pub uninterp spec fn pdf_page_text_of(pdf: Seq<u8>, page: int) -> Result<Seq<char>, Seq<char>>;

/// Calls `lopdf::Document::load_mem`; an error is turned into its text.
/// Claimed: the outcome is a function of the bytes, named `pdf_load_error`
/// (lopdf is built without its `rayon` feature, so loading walks the
/// cross-reference table in order on one thread); the document remembers
/// the bytes.
#[verifier::external_body]
pub(crate) fn load_pdf(pdf: &[u8]) -> (r: Result<PdfDocument, String>)
    ensures
        match r {
            Ok(d) => d.source() == pdf@ && pdf_load_error(pdf@) is None,
            Err(m) => pdf_load_error(pdf@) == Some(m@),
        },
{
    match lopdf::Document::load_mem(pdf) {
        Ok(doc) => Ok(PdfDocument { doc, source: Ghost(pdf@) }),
        Err(e) => Err(e.to_string()),
    }
}

/// Calls `lopdf::Document::get_pages` and counts the pages. Claimed: the
/// count is a function of the bytes the document was loaded from, named
/// `pdf_page_count_of`.
#[verifier::external_body]
pub(crate) fn page_count(d: &PdfDocument) -> (n: usize)
    ensures
        n == pdf_page_count_of(d.source()),
{
    d.doc.get_pages().len()
}

/// Calls `lopdf::Document::extract_text` on the single page `page`; an error
/// is turned into its text. Claimed: the outcome is a function of the bytes
/// the document was loaded from and of the page number, named
/// `pdf_page_text_of`.
#[verifier::external_body]
pub(crate) fn page_text(d: &PdfDocument, page: u32) -> (r: Result<String, String>)
    ensures
        match r {
            Ok(t) => pdf_page_text_of(d.source(), page as int) == Ok::<Seq<char>, Seq<char>>(t@),
            Err(m) => pdf_page_text_of(d.source(), page as int) == Err::<Seq<char>, Seq<char>>(m@),
        },
{
    match d.doc.extract_text(&[page]) {
        Ok(t) => Ok(t),
        Err(e) => Err(e.to_string()),
    }
}

/// The contents of a list of strings.
pub open spec fn views(v: Seq<String>) -> Seq<Seq<char>> {
    v.map_values(|s: String| s@)
}

/// The cited chunks of one page: its cleaned text cut into chunks, each
/// starting with `[page] `.
pub open spec fn cited_chunks(page: nat, text: Seq<char>) -> Seq<Seq<char>> {
    chunks_of(preprocessed(text)).map_values(|c: Seq<char>| page_label(page) + c)
}

/// The cited chunks of pages 1 to `k`, in page order, or the error of the
/// first page that fails.
pub open spec fn chunked_pages(pdf: Seq<u8>, k: nat) -> Result<Seq<Seq<char>>, PdfFailure>
    decreases k,
{
    if k == 0 {
        Ok(seq![])
    } else {
        match chunked_pages(pdf, (k - 1) as nat) {
            Err(e) => Err(e),
            Ok(prev) => if k > u32::MAX {
                Err(PdfFailure::PageNumberOutOfRange)
            } else {
                match pdf_page_text_of(pdf, k as int) {
                    Err(m) => Err(PdfFailure::PageText(k as u32, m)),
                    Ok(t) => Ok(prev + cited_chunks(k, t)),
                }
            },
        }
    }
}

/// One line per page: `[page] ` followed by the page's cleaned text.
pub open spec fn page_line(page: nat, text: Seq<char>) -> Seq<char> {
    page_label(page) + preprocessed(text)
}

/// The lines of pages 1 to `k`, or the error of the first page that fails.
pub open spec fn page_lines(pdf: Seq<u8>, k: nat) -> Result<Seq<Seq<char>>, PdfFailure>
    decreases k,
{
    if k == 0 {
        Ok(seq![])
    } else {
        match page_lines(pdf, (k - 1) as nat) {
            Err(e) => Err(e),
            Ok(prev) => if k > u32::MAX {
                Err(PdfFailure::PageNumberOutOfRange)
            } else {
                match pdf_page_text_of(pdf, k as int) {
                    Err(m) => Err(PdfFailure::PageText(k as u32, m)),
                    Ok(t) => Ok(prev.push(page_line(k, t))),
                }
            },
        }
    }
}

proof fn lemma_chunked_pages_error_stays(pdf: Seq<u8>, k: nat, m: nat)
    requires
        chunked_pages(pdf, k) is Err,
        k <= m,
    ensures
        chunked_pages(pdf, m) == chunked_pages(pdf, k),
    decreases m,
{
    if m > k {
        lemma_chunked_pages_error_stays(pdf, k, (m - 1) as nat);
    }
}

proof fn lemma_page_lines_error_stays(pdf: Seq<u8>, k: nat, m: nat)
    requires
        page_lines(pdf, k) is Err,
        k <= m,
    ensures
        page_lines(pdf, m) == page_lines(pdf, k),
    decreases m,
{
    if m > k {
        lemma_page_lines_error_stays(pdf, k, (m - 1) as nat);
    }
}

/// `s` is a chunk of page `p`: the citation `[p] ` followed by 1 to
/// `CHUNK_CHARS` characters of text.
pub open spec fn is_chunk_of_page(s: Seq<char>, p: nat) -> bool {
    let label = page_label(p);
    &&& label.len() < s.len() <= label.len() + CHUNK_CHARS
    &&& s.take(label.len() as int) == label
}

/// Every chunk is a chunk of one of pages 1 to `k`.
pub open spec fn all_cited(c: Seq<Seq<char>>, k: nat) -> bool {
    forall|j: int| 0 <= j < c.len() ==> #[trigger] cites_some_page(c[j], k)
}

/// `s` is a chunk of one of pages 1 to `k`.
pub open spec fn cites_some_page(s: Seq<char>, k: nat) -> bool {
    exists|p: nat| 1 <= p <= k && #[trigger] is_chunk_of_page(s, p)
}

/// Every chunk of the first `k` pages cites the page it comes from and holds
/// at most `CHUNK_CHARS` characters of text.
pub proof fn lemma_chunked_pages_cited(pdf: Seq<u8>, k: nat)
    ensures
        chunked_pages(pdf, k) matches Ok(c) ==> all_cited(c, k),
    decreases k,
{
    if k > 0 {
        lemma_chunked_pages_cited(pdf, (k - 1) as nat);
        if let Ok(c) = chunked_pages(pdf, k) {
            let prev = chunked_pages(pdf, (k - 1) as nat)->Ok_0;
            let t = pdf_page_text_of(pdf, k as int)->Ok_0;
            let added = cited_chunks(k, t);
            let cs = chunks_of(preprocessed(t));
            lemma_chunks_reassemble(preprocessed(t));
            assert(c == prev + added);
            assert forall|j: int| 0 <= j < c.len() implies #[trigger] cites_some_page(c[j], k) by {
                if j < prev.len() {
                    assert(c[j] == prev[j]);
                    assert(cites_some_page(prev[j], (k - 1) as nat));
                    let p = choose|p: nat| 1 <= p <= k - 1 && is_chunk_of_page(prev[j], p);
                    assert(1 <= p <= k && is_chunk_of_page(c[j], p));
                } else {
                    let q = j - prev.len();
                    assert(c[j] == page_label(k) + cs[q]);
                    assert((page_label(k) + cs[q]).take(page_label(k).len() as int) =~= page_label(k));
                    assert(is_chunk_of_page(c[j], k));
                }
            }
        }
    }
}

/// One line per page, in page order: line `i` is `[`, the numeral of page
/// `i + 1`, `] `, then the whole cleaned text of that page.
pub proof fn lemma_page_lines_shape(pdf: Seq<u8>, k: nat)
    ensures
        page_lines(pdf, k) matches Ok(l) ==> {
            &&& l.len() == k
            &&& forall|i: int|
                0 <= i < k ==> #[trigger] pdf_page_text_of(pdf, i + 1) is Ok && l[i] == seq!['[']
                    + decimal((i + 1) as nat) + seq![']', ' '] + preprocessed(
                    pdf_page_text_of(pdf, i + 1)->Ok_0,
                ) && l[i].len() == decimal((i + 1) as nat).len() + 3 + preprocessed(
                    pdf_page_text_of(pdf, i + 1)->Ok_0,
                ).len()
        },
    decreases k,
{
    if k > 0 {
        lemma_page_lines_shape(pdf, (k - 1) as nat);
        if let Ok(l) = page_lines(pdf, k) {
            let prev = page_lines(pdf, (k - 1) as nat)->Ok_0;
            assert forall|i: int| 0 <= i < k implies #[trigger] pdf_page_text_of(pdf, i + 1) is Ok
                && l[i] == seq!['['] + decimal((i + 1) as nat) + seq![']', ' '] + preprocessed(
                pdf_page_text_of(pdf, i + 1)->Ok_0,
            ) && l[i].len() == decimal((i + 1) as nat).len() + 3 + preprocessed(
                pdf_page_text_of(pdf, i + 1)->Ok_0,
            ).len() by {
                if i < k - 1 {
                    assert(l[i] == prev[i]);
                } else {
                    lemma_page_label_cites(k);
                }
            }
        }
    }
}

/// The chunks with their page citation (`[`, numeral, `] `) cut off.
pub open spec fn uncited(cs: Seq<Seq<char>>, page: nat) -> Seq<Seq<char>> {
    cs.map_values(|c: Seq<char>| c.skip(decimal(page).len() + 3int))
}

/// Chunking a document loses nothing of a page: the chunks of pages 1 to `k`
/// are those of pages 1 to `k - 1` followed by the chunks of page `k`; each of
/// these starts with `[k] `, there are `ceil(len / 200)` of them, and without
/// their citations, laid end to end, they give back the whole cleaned text
/// of page `k`.
pub proof fn lemma_chunked_pages_keep_each_page(pdf: Seq<u8>, k: nat)
    requires
        k >= 1,
    ensures
        chunked_pages(pdf, k) matches Ok(c) ==> {
            &&& chunked_pages(pdf, (k - 1) as nat) is Ok
            &&& pdf_page_text_of(pdf, k as int) is Ok
            &&& {
                let prev = chunked_pages(pdf, (k - 1) as nat)->Ok_0;
                let text = preprocessed(pdf_page_text_of(pdf, k as int)->Ok_0);
                let mine = c.skip(prev.len() as int);
                &&& prev.len() <= c.len()
                &&& c.take(prev.len() as int) == prev
                &&& mine.len() == (text.len() + 199) / 200
                &&& forall|j: int|
                    0 <= j < mine.len() ==> (#[trigger] mine[j]).take(decimal(k).len() + 3int) == seq![
                        '[',
                    ] + decimal(k) + seq![']', ' ']
                &&& joined(uncited(mine, k)) == text
            }
        },
{
    if let Ok(c) = chunked_pages(pdf, k) {
        let prev = chunked_pages(pdf, (k - 1) as nat)->Ok_0;
        let t = pdf_page_text_of(pdf, k as int)->Ok_0;
        let text = preprocessed(t);
        let cs = chunks_of(text);
        assert(c == prev + cited_chunks(k, t));
        let mine = c.skip(prev.len() as int);
        assert(mine =~= cited_chunks(k, t));
        assert(c.take(prev.len() as int) =~= prev);
        lemma_chunks_are_runs(text);
        lemma_chunks_reassemble(text);
        lemma_page_label_cites(k);
        let lab = seq!['['] + decimal(k) + seq![']', ' '];
        assert forall|j: int| 0 <= j < mine.len() implies (#[trigger] mine[j]).take(
            decimal(k).len() + 3int,
        ) == lab by {
            assert(mine[j] == page_label(k) + cs[j]);
            assert((page_label(k) + cs[j]).take(decimal(k).len() + 3int) =~= lab);
        }
        assert(uncited(mine, k) =~= cs) by {
            assert forall|j: int| 0 <= j < cs.len() implies #[trigger] uncited(mine, k)[j] == cs[j] by {
                assert(mine[j] == page_label(k) + cs[j]);
                assert((page_label(k) + cs[j]).skip(decimal(k).len() + 3int) =~= cs[j]);
            }
        }
    }
}

/// The chunk that tells how many pages the document has.
pub open spec fn total_pages_line(n: nat) -> Seq<char> {
    "[0] Total pages in the PDF - "@ + decimal(n)
}

/// The chunk `[0] Total pages in the PDF - n`.
pub fn total_pages_chunk(n: usize) -> (s: String)
    ensures
        s@ == total_pages_line(n as nat),
{
    let prefix = "[0] Total pages in the PDF - ".to_owned();
    let digits = decimal_string(n);
    prefix.concat(digits.as_str())
}

/// Extracts, cleans and chunks pages 1 to `n` of the document, in page order.
pub fn chunk_pages(doc: &PdfDocument, n: usize) -> (r: Result<Vec<String>, PdfError>)
    ensures
        result_views(r) == chunked_pages(doc.source(), n as nat),
{
    let mut out: Vec<String> = Vec::new();
    let mut done: usize = 0;
    assert(views(out@) =~= seq![]);
    while done < n
        invariant
            done <= n,
            chunked_pages(doc.source(), done as nat) == Ok::<Seq<Seq<char>>, PdfFailure>(views(out@)),
        decreases n - done,
    {
        let page = done + 1;
        if page > 4294967295usize {
            proof {
                lemma_chunked_pages_error_stays(doc.source(), page as nat, n as nat);
            }
            return Err(PdfError::PageNumberOutOfRange);
        }
        let text = match page_text(doc, page as u32) {
            Ok(t) => t,
            Err(m) => {
                proof {
                    lemma_chunked_pages_error_stays(doc.source(), page as nat, n as nat);
                }
                return Err(PdfError::PageText(page as u32, m));
            },
        };
        let clean = preprocess(text);
        let mut pieces = label_chunks(page, clean.as_str());
        proof {
            let t = pdf_page_text_of(doc.source(), page as int)->Ok_0;
            assert(views(pieces@) =~= cited_chunks(page as nat, t));
        }
        let ghost before = out@;
        let ghost added = pieces@;
        out.append(&mut pieces);
        assert(views(out@) =~= views(before) + views(added));
        done = page;
    }
    Ok(out)
}

/// A chunking outcome by the contents of its strings.
pub open spec fn result_views(r: Result<Vec<String>, PdfError>) -> Result<Seq<Seq<char>>, PdfFailure> {
    match r {
        Ok(v) => Ok(views(v@)),
        Err(e) => Err(e@),
    }
}

/// Every page of the PDF, cleaned and cut into cited chunks.
pub open spec fn cited_document(pdf: Seq<u8>) -> Result<Seq<Seq<char>>, PdfFailure> {
    match pdf_load_error(pdf) {
        Some(m) => Err(PdfFailure::Unreadable(m)),
        None => chunked_pages(pdf, pdf_page_count_of(pdf)),
    }
}

/// The page-count chunk followed by the cited chunks of every page.
pub open spec fn counted_document(pdf: Seq<u8>) -> Result<Seq<Seq<char>>, PdfFailure> {
    match pdf_load_error(pdf) {
        Some(m) => Err(PdfFailure::Unreadable(m)),
        None => match chunked_pages(pdf, pdf_page_count_of(pdf)) {
            Ok(c) => Ok(seq![total_pages_line(pdf_page_count_of(pdf))] + c),
            Err(e) => Err(e),
        },
    }
}

/// Most pages a document may have to be accepted page by page.
pub const MAX_PAGES: usize = 200;

/// One cited line per page, then the page-count line; documents of more
/// than `MAX_PAGES` pages are refused.
pub open spec fn lined_document(pdf: Seq<u8>) -> Result<Seq<Seq<char>>, PdfFailure> {
    match pdf_load_error(pdf) {
        Some(m) => Err(PdfFailure::Unreadable(m)),
        None => if pdf_page_count_of(pdf) > MAX_PAGES {
            Err(PdfFailure::TooLarge)
        } else {
            match page_lines(pdf, pdf_page_count_of(pdf)) {
                Ok(l) => Ok(l.push(total_pages_line(pdf_page_count_of(pdf)))),
                Err(e) => Err(e),
            }
        },
    }
}

/// Extracts and cleans pages 1 to `n` of the document, one cited line per page.
pub fn line_pages(doc: &PdfDocument, n: usize) -> (r: Result<Vec<String>, PdfError>)
    ensures
        result_views(r) == page_lines(doc.source(), n as nat),
{
    let mut out: Vec<String> = Vec::new();
    let mut done: usize = 0;
    assert(views(out@) =~= seq![]);
    while done < n
        invariant
            done <= n,
            page_lines(doc.source(), done as nat) == Ok::<Seq<Seq<char>>, PdfFailure>(views(out@)),
        decreases n - done,
    {
        let page = done + 1;
        if page > 4294967295usize {
            proof {
                lemma_page_lines_error_stays(doc.source(), page as nat, n as nat);
            }
            return Err(PdfError::PageNumberOutOfRange);
        }
        let text = match page_text(doc, page as u32) {
            Ok(t) => t,
            Err(m) => {
                proof {
                    lemma_page_lines_error_stays(doc.source(), page as nat, n as nat);
                }
                return Err(PdfError::PageText(page as u32, m));
            },
        };
        let label = page_label_string(page);
        let line = label.concat(preprocess(text).as_str());
        let ghost before = out@;
        out.push(line);
        assert(views(out@) =~= views(before).push(line@));
        done = page;
    }
    Ok(out)
}

} // verus!
