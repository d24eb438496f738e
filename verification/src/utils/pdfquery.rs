use vstd::prelude::*;
use crate::picture::{decode_image, decoded_image_of, encode_jpeg, jpeg_of, resize_picture, ImageFailure, ImageProblem};
use crate::prompt::{prompt_outcome, prompt_result, ranked_prompt_for, TOP_CHUNKS};
use crate::ranking::top_positions;
use crate::store::{lookup, DocumentStore, QueryError};
use crate::pdf::{lined_document, load_pdf, page_count, line_pages, result_views, total_pages_chunk, total_pages_line, views, PdfError, MAX_PAGES};

verus! {

/// Turns a PDF of at most 200 pages into the chunks that are embedded and
/// stored: one line `[page] text` per page, with the page's cleaned text,
/// followed by the line `[0] Total pages in the PDF - n`.
pub fn chunk(pdf: &[u8]) -> (r: Result<Vec<String>, PdfError>)
    ensures
        result_views(r) == lined_document(pdf@),
{
    let doc = match load_pdf(pdf) {
        Ok(doc) => doc,
        Err(m) => {
            return Err(PdfError::Unreadable(m));
        },
    };
    let n = page_count(&doc);
    if n > MAX_PAGES {
        return Err(PdfError::TooLarge);
    }
    let mut pages = match line_pages(&doc, n) {
        Ok(pages) => pages,
        Err(e) => {
            return Err(e);
        },
    };
    let ghost before = pages@;
    pages.push(total_pages_chunk(n));
    assert(views(pages@) =~= views(before).push(total_pages_line(n as nat)));
    Ok(pages)
}

/// Builds the prompt that answers `question` about document `id`: the three
/// chunks whose scores in `ranking` (one per chunk, higher is more similar)
/// are best, best first and ties in chunk order, then the question.
pub fn query<E>(store: &DocumentStore<E>, id: &str, question: &str, ranking: &Vec<u32>) -> (r: Result<
    String,
    QueryError,
>)
    requires
        lookup(store.chunk_map(), store.embedding_map(), id@) is Ok ==> {
            &&& TOP_CHUNKS <= ranking@.len()
            &&& forall|a: int|
                0 <= a < TOP_CHUNKS ==> #[trigger] top_positions(ranking@, TOP_CHUNKS as nat)[a]
                    < store.chunk_map()[id@]@.len()
        },
    ensures
        prompt_result(r) == prompt_outcome(
            "PDF chunks:\n "@,
            store.chunk_map(),
            store.embedding_map(),
            id@,
            question@,
            ranking@,
        ),
{
    ranked_prompt_for("PDF chunks:\n ", store, id, question, ranking)
}

/// Forgets every stored document.
pub fn clear<E>(store: &mut DocumentStore<E>)
    ensures
        final(store).chunk_map() == Map::<Seq<char>, Vec<String>>::empty(),
        final(store).embedding_map() == Map::<Seq<char>, E>::empty(),
{
    store.clear();
}

/// Largest accepted size of the stored JPEG, in bytes (3 MiB).
pub const TARGET_FILE_SIZE: usize = 3145728;

/// Side of the square the image is first cropped and scaled to.
pub const FIRST_SIDE: u32 = 1024;

/// The side of the square after `k` halvings of `FIRST_SIDE`.
pub open spec fn side(k: nat) -> u32
    decreases k,
{
    if k == 0 {
        FIRST_SIDE
    } else {
        side((k - 1) as nat) / 2
    }
}

/// The sizes an image goes through up to the `k`-th halving.
pub open spec fn schedule(k: nat) -> Seq<(u32, u32)> {
    Seq::new(k + 1, |j: int| (side(j as nat), side(j as nat)))
}

/// Re-encoding from the `k`-th halving on: the first encoding that fits in
/// `TARGET_FILE_SIZE`, or the encoder's error. It stops at the 11th halving
/// whatever comes out there: that square has side 0 (`lemma_side_vanishes`)
/// and the JPEG encoder refuses it (`encode_jpeg`), so that encoding is an
/// error in every run.
pub open spec fn shrink_from(jpg: Seq<u8>, k: nat) -> Result<Seq<u8>, ImageProblem>
    decreases 11 - k,
{
    match jpeg_of(jpg, schedule(k)) {
        Err(m) => Err(ImageProblem::Encoding(m)),
        Ok(b) => if b.len() <= TARGET_FILE_SIZE || k >= 11 {
            Ok(b)
        } else {
            shrink_from(jpg, k + 1)
        },
    }
}

/// The encodings of the first `upto` squares (sides 1024, 512, ...) all
/// succeeded and were all larger than `TARGET_FILE_SIZE`.
pub open spec fn all_too_large(jpg: Seq<u8>, upto: nat) -> bool {
    forall|j: nat|
        j < upto ==> (#[trigger] jpeg_of(jpg, schedule(j)) matches Ok(b) && b.len() > TARGET_FILE_SIZE)
}

/// What re-encoding the uploaded bytes `jpg` gives.
pub open spec fn compress_outcome(jpg: Seq<u8>) -> Result<Seq<u8>, ImageProblem> {
    match decoded_image_of(jpg) {
        Err(m) => Err(ImageProblem::Undecodable(m)),
        Ok((w, h)) => if w == 0 || h == 0 {
            Err(ImageProblem::EmptyImage)
        } else {
            shrink_from(jpg, 0)
        },
    }
}

/// A re-encoding outcome by the contents of its bytes and texts.
pub open spec fn compress_result(r: Result<Vec<u8>, ImageFailure>) -> Result<Seq<u8>, ImageProblem> {
    match r {
        Ok(b) => Ok(b@),
        Err(e) => Err(e@),
    }
}

/// The encoding after `m` halvings is `b`, and every earlier encoding from
/// the `k`-th halving on succeeded but did not fit.
pub open spec fn first_fit_from(jpg: Seq<u8>, k: nat, m: nat, b: Seq<u8>) -> bool {
    &&& k <= m <= 11
    &&& jpeg_of(jpg, schedule(m)) == Ok::<Seq<u8>, Seq<char>>(b)
    &&& forall|j: nat|
        k <= j < m ==> (#[trigger] jpeg_of(jpg, schedule(j)) matches Ok(x) && x.len() > TARGET_FILE_SIZE)
}

/// Re-encoding keeps the first encoding in the halving sequence that fits:
/// every earlier one was larger than `TARGET_FILE_SIZE`.
pub proof fn lemma_shrink_keeps_first_fit(jpg: Seq<u8>, k: nat)
    requires
        k <= 11,
    ensures
        shrink_from(jpg, k) matches Ok(b) ==> exists|m: nat| #[trigger] first_fit_from(jpg, k, m, b),
    decreases 11 - k,
{
    if let Ok(b) = shrink_from(jpg, k) {
        let e = jpeg_of(jpg, schedule(k))->Ok_0;
        if e.len() <= TARGET_FILE_SIZE || k >= 11 {
            assert(first_fit_from(jpg, k, k, b));
        } else {
            lemma_shrink_keeps_first_fit(jpg, k + 1);
            let m = choose|m: nat| #[trigger] first_fit_from(jpg, k + 1, m, b);
            assert(first_fit_from(jpg, k, m, b));
        }
    }
}

proof fn lemma_side_shrinks(i: nat, j: nat)
    requires
        i <= j,
    ensures
        side(j) <= side(i),
    decreases j,
{
    if j > i {
        lemma_side_shrinks(i, (j - 1) as nat);
    }
}

proof fn lemma_side_positive(j: nat)
    requires
        j <= 10,
    ensures
        side(j) >= 1,
{
    reveal_with_fuel(side, 11);
    assert(side(10) == 1);
    lemma_side_shrinks(j, 10);
}

proof fn lemma_side_vanishes(k: nat)
    requires
        k >= 11,
    ensures
        side(k) == 0,
    decreases k,
{
    if k == 11 {
        reveal_with_fuel(side, 12);
    } else {
        lemma_side_vanishes((k - 1) as nat);
    }
}

/// Re-encodes an uploaded image as a JPEG of at most 3 MiB: it is scaled and
/// cropped to 1024 x 1024, then halved in both dimensions until the encoding
/// fits.
pub fn compress_jpg(jpg: &[u8]) -> (r: Result<Vec<u8>, ImageFailure>)
    ensures
        compress_result(r) == compress_outcome(jpg@),
        r matches Ok(buf) ==> buf@.len() <= TARGET_FILE_SIZE,
        r matches Err(ImageFailure::Encoding(_)) ==> all_too_large(jpg@, 11),
        (decoded_image_of(jpg@) matches Ok((w, h)) && w > 0 && h > 0 && !all_too_large(jpg@, 11))
            ==> r is Ok,
{
    let decoded = match decode_image(jpg) {
        Ok(p) => p,
        Err(m) => {
            return Err(ImageFailure::Undecodable(m));
        },
    };
    if decoded.width() == 0 || decoded.height() == 0 {
        return Err(ImageFailure::EmptyImage);
    }
    let mut resized = resize_picture(&decoded, FIRST_SIDE, FIRST_SIDE);
    let ghost mut k: nat = 0;
    assert(resized.sizes() =~= schedule(0));
    let mut buffer = match encode_jpeg(&resized) {
        Ok(b) => b,
        Err(m) => {
            return Err(ImageFailure::Encoding(m));
        },
    };
    while buffer.len() > TARGET_FILE_SIZE
        invariant
            k <= 10,
            resized.width_of() == side(k),
            resized.height_of() == side(k),
            0 < side(k) <= FIRST_SIDE,
            resized.source() == jpg@,
            resized.sizes() == schedule(k),
            jpeg_of(jpg@, schedule(k)) == Ok::<Seq<u8>, Seq<char>>(buffer@),
            shrink_from(jpg@, 0) == shrink_from(jpg@, k),
            compress_outcome(jpg@) == shrink_from(jpg@, 0),
            all_too_large(jpg@, k),
        decreases resized.width_of(),
    {
        let width = resized.width() / 2;
        let height = resized.height() / 2;
        assert(shrink_from(jpg@, k) == shrink_from(jpg@, k + 1));
        resized = resize_picture(&resized, width, height);
        assert(resized.sizes() =~= schedule(k + 1));
        assert(all_too_large(jpg@, k + 1)) by {
            assert forall|j: nat| j < k + 1 implies (#[trigger] jpeg_of(jpg@, schedule(j)) matches Ok(
                b,
            ) && b.len() > TARGET_FILE_SIZE) by {
                if j < k {
                    assert(all_too_large(jpg@, k));
                }
            }
        }
        buffer = match encode_jpeg(&resized) {
            Ok(b) => b,
            Err(m) => {
                proof {
                    if k + 1 <= 10 {
                        lemma_side_positive((k + 1) as nat);
                    }
                    assert(k == 10);
                }
                return Err(ImageFailure::Encoding(m));
            },
        };
        proof {
            k = k + 1;
            if k >= 11 {
                lemma_side_vanishes(k);
            }
        }
    }
    Ok(buffer)
}

} // verus!
