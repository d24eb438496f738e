use vstd::prelude::*;

verus! {

/// Unicode `White_Space`, the class that the regex `\s` matches.
pub open spec fn is_white_space(c: char) -> bool {
    ||| ('\t' <= c && c <= '\r')
    ||| c == ' '
    ||| c == '\u{85}'
    ||| c == '\u{a0}'
    ||| c == '\u{1680}'
    ||| ('\u{2000}' <= c && c <= '\u{200a}')
    ||| c == '\u{2028}'
    ||| c == '\u{2029}'
    ||| c == '\u{202f}'
    ||| c == '\u{205f}'
    ||| c == '\u{3000}'
}

/// The text with every line feed removed.
pub open spec fn without_newlines(s: Seq<char>) -> Seq<char> {
    s.filter(|c: char| c != '\n')
}

/// The text with every maximal run of white space replaced by one space.
pub open spec fn squeeze_white_space(s: Seq<char>) -> Seq<char>
    decreases s.len(),
{
    if s.len() == 0 {
        s
    } else {
        let p = s.drop_last();
        if is_white_space(s.last()) {
            if p.len() > 0 && is_white_space(p.last()) {
                squeeze_white_space(p)
            } else {
                squeeze_white_space(p).push(' ')
            }
        } else {
            squeeze_white_space(p).push(s.last())
        }
    }
}

/// What the clean-up of extracted page text produces.
pub open spec fn preprocessed(s: Seq<char>) -> Seq<char> {
    squeeze_white_space(without_newlines(s))
}


/// Every white-space character is a plain space and no two white-space
/// characters stand next to each other.
pub open spec fn is_squeezed(t: Seq<char>) -> bool {
    &&& forall|i: int| 0 <= i < t.len() && is_white_space(#[trigger] t[i]) ==> t[i] == ' '
    &&& forall|i: int|
        0 <= i < t.len() - 1 ==> !(is_white_space(#[trigger] t[i]) && is_white_space(t[i + 1]))
}

proof fn lemma_squeeze_shape(s: Seq<char>)
    ensures
        is_squeezed(squeeze_white_space(s)),
        squeeze_white_space(s).len() == 0 <==> s.len() == 0,
        s.len() > 0 ==> (is_white_space(squeeze_white_space(s).last()) <==> is_white_space(
            s.last(),
        )),
    decreases s.len(),
{
    if s.len() > 0 {
        let p = s.drop_last();
        lemma_squeeze_shape(p);
        let q = squeeze_white_space(p);
        let t = squeeze_white_space(s);
        if is_white_space(s.last()) && p.len() > 0 && is_white_space(p.last()) {
            assert(t == q);
        } else {
            assert forall|i: int| 0 <= i < t.len() - 1 implies !(is_white_space(#[trigger] t[i])
                && is_white_space(t[i + 1])) by {
                if i < t.len() - 2 {
                    assert(t[i] == q[i] && t[i + 1] == q[i + 1]);
                } else {
                    assert(t[i] == q.last());
                }
            }
            assert forall|i: int| 0 <= i < t.len() && is_white_space(#[trigger] t[i]) implies t[i]
                == ' ' by {
                if i < t.len() - 1 {
                    assert(t[i] == q[i]);
                }
            }
        }
    }
}

proof fn lemma_squeeze_keeps_squeezed(t: Seq<char>)
    requires
        is_squeezed(t),
    ensures
        squeeze_white_space(t) == t,
    decreases t.len(),
{
    if t.len() > 0 {
        let p = t.drop_last();
        assert forall|i: int| 0 <= i < p.len() - 1 implies !(is_white_space(#[trigger] p[i])
            && is_white_space(p[i + 1])) by {
            assert(p[i] == t[i] && p[i + 1] == t[i + 1]);
        }
        assert forall|i: int| 0 <= i < p.len() && is_white_space(#[trigger] p[i]) implies p[i]
            == ' ' by {
            assert(p[i] == t[i]);
        }
        lemma_squeeze_keeps_squeezed(p);
        if is_white_space(t.last()) {
            assert(t[t.len() - 1] == ' ');
            if p.len() > 0 {
                assert(!is_white_space(t[t.len() - 2]));
            }
        }
        assert(t == p.push(t.last()));
    }
}

proof fn lemma_no_newline_filter_keeps(t: Seq<char>)
    requires
        forall|i: int| 0 <= i < t.len() ==> #[trigger] t[i] != '\n',
    ensures
        without_newlines(t) == t,
    decreases t.len(),
{
    reveal(Seq::filter);
    if t.len() > 0 {
        let p = t.drop_last();
        assert forall|i: int| 0 <= i < p.len() implies #[trigger] p[i] != '\n' by {
            assert(p[i] == t[i]);
        }
        lemma_no_newline_filter_keeps(p);
        assert(t[t.len() - 1] != '\n');
        assert(t == p.push(t.last()));
    }
}

/// Cleaned text holds no line feed, uses only plain spaces as white space,
/// and never has two white-space characters in a row.
pub proof fn lemma_preprocessed_shape(s: Seq<char>)
    ensures
        is_squeezed(preprocessed(s)),
        forall|i: int| 0 <= i < preprocessed(s).len() ==> #[trigger] preprocessed(s)[i] != '\n',
{
    lemma_squeeze_shape(without_newlines(s));
    let t = preprocessed(s);
    assert forall|i: int| 0 <= i < t.len() implies #[trigger] t[i] != '\n' by {
        if t[i] == '\n' {
            assert(is_white_space(t[i]));
        }
    }
}

/// Cleaning is idempotent: cleaning already cleaned text changes nothing.
pub proof fn lemma_preprocess_idempotent(s: Seq<char>)
    ensures
        preprocessed(preprocessed(s)) == preprocessed(s),
{
    lemma_preprocessed_shape(s);
    let t = preprocessed(s);
    lemma_no_newline_filter_keeps(t);
    lemma_squeeze_keeps_squeezed(t);
}

proof fn lemma_squeeze_append(x: Seq<char>, y: Seq<char>)
    requires
        y.len() > 0 ==> !is_white_space(y[0]),
    ensures
        squeeze_white_space(x + y) == squeeze_white_space(x) + squeeze_white_space(y),
    decreases y.len(),
{
    if y.len() == 0 {
        assert(x + y =~= x);
        assert(squeeze_white_space(x) + squeeze_white_space(y) =~= squeeze_white_space(x));
    } else {
        let s = x + y;
        let q = y.drop_last();
        assert(s.drop_last() =~= x + q);
        assert(s.last() == y.last());
        if y.len() == 1 {
            assert(q =~= seq![]);
            assert(x + q =~= x);
            assert(squeeze_white_space(q) =~= seq![]);
            assert(squeeze_white_space(y) =~= seq![y.last()]);
            assert(squeeze_white_space(s) =~= squeeze_white_space(x) + squeeze_white_space(y));
        } else {
            lemma_squeeze_append(x, q);
            assert((x + q).last() == q.last());
            let a = squeeze_white_space(x);
            let b = squeeze_white_space(q);
            assert((a + b).push(' ') =~= a + b.push(' '));
            assert((a + b).push(y.last()) =~= a + b.push(y.last()));
        }
    }
}

proof fn lemma_filter_keeps_first(b: Seq<char>)
    requires
        b.len() > 0,
        b[0] != '\n',
    ensures
        without_newlines(b).len() > 0,
        without_newlines(b)[0] == b[0],
{
    reveal(Seq::filter);
    let head = seq![b[0]];
    let rest = b.drop_first();
    assert(b =~= head + rest);
    Seq::filter_distributes_over_add(head, rest, |c: char| c != '\n');
    assert(head.drop_last() =~= seq![]);
    assert(without_newlines(head) =~= seq![b[0]]);
}

/// Cleaning splits at a boundary where the second part starts with a
/// character that is not white space: cleaning the whole equals cleaning the
/// parts and joining them.
pub proof fn lemma_preprocess_concat(a: Seq<char>, b: Seq<char>)
    requires
        b.len() > 0 ==> !is_white_space(b[0]),
    ensures
        preprocessed(a + b) == preprocessed(a) + preprocessed(b),
{
    Seq::filter_distributes_over_add(a, b, |c: char| c != '\n');
    assert(without_newlines(a + b) == without_newlines(a) + without_newlines(b));
    if b.len() > 0 {
        lemma_filter_keeps_first(b);
    }
    lemma_squeeze_append(without_newlines(a), without_newlines(b));
}

/// Calls `regex::Regex::replace_all` on `text`, with the regex compiled from
/// `pattern`, for the two pattern/replacement pairs this library uses.
/// Claimed of the outside code: the pattern `\n` with replacement `""` drops
/// every line feed; the pattern `\s+` with replacement `" "` replaces each
/// leftmost-longest run of Unicode white space by a single space. Both
/// patterns compile, so the `unwrap` never panics.
#[verifier::external_body]
pub(crate) fn regex_replace_all(pattern: &str, text: &str, replacement: &str) -> (r: String)
    requires
        (pattern@ == "\\n"@ && replacement@ == ""@) || (pattern@ == "\\s+"@ && replacement@ == " "@),
    ensures
        pattern@ == "\\n"@ ==> r@ == without_newlines(text@),
        pattern@ == "\\s+"@ ==> r@ == squeeze_white_space(text@),
{
    regex::Regex::new(pattern).unwrap().replace_all(text, replacement).into_owned()
}


/// The character of the decimal digit `d` (`0 <= d < 10`).
pub open spec fn digit_char(d: int) -> char {
    (48 + d) as char
}

/// The decimal representation of `n`, without sign or leading zeros.
pub open spec fn decimal(n: nat) -> Seq<char>
    decreases n,
{
    if n < 10 {
        seq![digit_char(n as int)]
    } else {
        decimal(n / 10).push(digit_char((n % 10) as int))
    }
}

/// A decimal digit character.
pub open spec fn is_digit(c: char) -> bool {
    '0' <= c && c <= '9'
}

/// The number a string of decimal digits denotes, read left to right.
pub open spec fn decimal_value(s: Seq<char>) -> int
    decreases s.len(),
{
    if s.len() == 0 {
        0
    } else {
        decimal_value(s.drop_last()) * 10 + (s.last() as int - 48)
    }
}

/// `decimal(n)` is the usual decimal numeral of `n`: a non-empty string of
/// digits, without a leading zero unless `n` is 0, that reads back as `n`.
pub proof fn lemma_decimal_reads_back(n: nat)
    ensures
        decimal(n).len() > 0,
        forall|i: int| 0 <= i < decimal(n).len() ==> is_digit(#[trigger] decimal(n)[i]),
        decimal_value(decimal(n)) == n,
        n > 0 ==> decimal(n)[0] != '0',
        n == 0 ==> decimal(n) == seq!['0'],
    decreases n,
{
    if n < 10 {
        assert(decimal(n) == seq![digit_char(n as int)]);
        assert(decimal(n).drop_last() =~= Seq::<char>::empty());
        assert(decimal_value(Seq::<char>::empty()) == 0);
        assert(digit_char(n as int) as int == 48 + n);
        assert(decimal_value(decimal(n)) == decimal_value(decimal(n).drop_last()) * 10 + (
        decimal(n).last() as int - 48));
    } else {
        lemma_decimal_reads_back(n / 10);
        let d = decimal(n);
        let q = decimal(n / 10);
        assert(d.drop_last() =~= q);
        assert(digit_char((n % 10) as int) as int == 48 + n % 10);
        assert(d.last() == digit_char((n % 10) as int));
        assert(decimal_value(d) == decimal_value(q) * 10 + (d.last() as int - 48));
        assert(decimal_value(d) == (n / 10) * 10 + n % 10);
        assert forall|i: int| 0 <= i < d.len() implies is_digit(#[trigger] d[i]) by {
            if i < q.len() {
                assert(d[i] == q[i]);
            }
        }
        assert(d[0] == q[0]);
    }
}

/// The page citation is `[`, the decimal numeral of the page, `] `.
pub proof fn lemma_page_label_cites(page: nat)
    ensures
        page_label(page) == seq!['['] + decimal(page) + seq![']', ' '],
        page_label(page).len() == decimal(page).len() + 3,
        page_label(page)[0] == '[',
        page_label(page).subrange(1, decimal(page).len() + 1int) == decimal(page),
{
    let l = page_label(page);
    assert(l.subrange(1, decimal(page).len() + 1int) =~= decimal(page));
}

fn digit(d: usize) -> (c: char)
    requires
        d < 10,
    ensures
        c == digit_char(d as int),
{
    match d {
        0 => '0',
        1 => '1',
        2 => '2',
        3 => '3',
        4 => '4',
        5 => '5',
        6 => '6',
        7 => '7',
        8 => '8',
        _ => '9',
    }
}

/// Appends the decimal representation of `n` to `out`.
pub fn push_decimal(n: usize, out: &mut Vec<char>)
    ensures
        final(out)@ == old(out)@ + decimal(n as nat),
    decreases n,
{
    let ghost start = out@;
    if n >= 10 {
        push_decimal(n / 10, out);
    }
    out.push(digit(n % 10));
    assert(out@ =~= start + decimal(n as nat));
}

/// Calls std's `Iterator::collect` to build a `String` from characters;
/// claimed: the string holds exactly those characters, in order.
#[verifier::external_body]
pub(crate) fn string_from_chars(chars: &Vec<char>) -> (s: String)
    ensures
        s@ == chars@,
{
    chars.iter().collect()
}

/// The characters of `text`, in order.
pub fn chars_of(text: &str) -> (v: Vec<char>)
    ensures
        v@ == text@,
{
    broadcast use vstd::string::group_string_axioms;
    let mut v: Vec<char> = Vec::new();
    for c in it: text.chars()
        invariant
            it.seq() == text@,
            v@ == it.seq().take(it.index() as int),
    {
        v.push(c);
    }
    v
}

/// The decimal representation of `n` as a string.
pub fn decimal_string(n: usize) -> (s: String)
    ensures
        s@ == decimal(n as nat),
{
    let mut v: Vec<char> = Vec::new();
    push_decimal(n, &mut v);
    assert(v@ =~= decimal(n as nat));
    string_from_chars(&v)
}

/// Number of characters in one chunk of page text.
pub const CHUNK_CHARS: usize = 200;

/// The text cut into consecutive pieces of `CHUNK_CHARS` characters; the last
/// piece holds what is left. Empty text gives no piece.
pub open spec fn chunks_of(s: Seq<char>) -> Seq<Seq<char>>
    decreases s.len(),
{
    if s.len() == 0 {
        seq![]
    } else if s.len() <= CHUNK_CHARS {
        seq![s]
    } else {
        seq![s.take(CHUNK_CHARS as int)] + chunks_of(s.skip(CHUNK_CHARS as int))
    }
}

/// The citation that starts every chunk of page `page`: `[page] `.
pub open spec fn page_label(page: nat) -> Seq<char> {
    seq!['['] + decimal(page) + seq![']', ' ']
}

/// The pieces laid end to end.
pub open spec fn joined(pieces: Seq<Seq<char>>) -> Seq<char>
    decreases pieces.len(),
{
    if pieces.len() == 0 {
        seq![]
    } else {
        pieces[0] + joined(pieces.drop_first())
    }
}

proof fn lemma_chunks_step(s: Seq<char>, start: int)
    requires
        0 <= start < s.len(),
    ensures
        chunks_of(s.skip(start)) == seq![
            s.subrange(start, if s.len() - start > CHUNK_CHARS { start + CHUNK_CHARS } else { s.len() as int }),
        ] + chunks_of(
            s.skip(if s.len() - start > CHUNK_CHARS { start + CHUNK_CHARS } else { s.len() as int }),
        ),
{
    let t = s.skip(start);
    if s.len() - start > CHUNK_CHARS {
        assert(t.take(CHUNK_CHARS as int) =~= s.subrange(start, start + CHUNK_CHARS));
        assert(t.skip(CHUNK_CHARS as int) =~= s.skip(start + CHUNK_CHARS));
    } else {
        assert(t =~= s.subrange(start, s.len() as int));
        assert(s.skip(s.len() as int).len() == 0);
        assert(chunks_of(s.skip(s.len() as int)) =~= seq![]);
        assert(seq![t] + seq![] =~= seq![t]);
    }
}

/// The `j`-th chunk is the `j`-th run of `CHUNK_CHARS` characters of the
/// text (the last one shorter), and there are `ceil(len / CHUNK_CHARS)`.
pub proof fn lemma_chunks_are_runs(s: Seq<char>)
    ensures
        chunks_of(s).len() == (s.len() + 199) / 200,
        forall|j: int|
            0 <= j < chunks_of(s).len() ==> #[trigger] chunks_of(s)[j] == s.subrange(
                200 * j,
                if 200 * j + 200 <= s.len() {
                    200 * j + 200
                } else {
                    s.len() as int
                },
            ),
    decreases s.len(),
{
    if s.len() == 0 {
    } else if s.len() <= CHUNK_CHARS {
        assert(chunks_of(s)[0] == s);
        assert(s.subrange(0, s.len() as int) =~= s);
    } else {
        let rest = s.skip(200);
        lemma_chunks_are_runs(rest);
        let c = chunks_of(s);
        assert forall|j: int| 0 <= j < c.len() implies #[trigger] c[j] == s.subrange(
            200 * j,
            if 200 * j + 200 <= s.len() {
                200 * j + 200
            } else {
                s.len() as int
            },
        ) by {
            if j == 0 {
                assert(c[0] =~= s.subrange(0, 200));
            } else {
                assert(c[j] == chunks_of(rest)[j - 1]);
                let e = if 200 * j + 200 <= s.len() {
                    200 * j + 200
                } else {
                    s.len() as int
                };
                assert(chunks_of(rest)[j - 1] =~= s.subrange(200 * j, e));
            }
        }
    }
}

/// Chunking loses nothing: the chunks laid end to end give back the text,
/// every chunk is non-empty and at most `CHUNK_CHARS` long, and every chunk
/// but the last is exactly `CHUNK_CHARS` long.
pub proof fn lemma_chunks_reassemble(s: Seq<char>)
    ensures
        joined(chunks_of(s)) == s,
        forall|j: int|
            0 <= j < chunks_of(s).len() ==> 0 < #[trigger] chunks_of(s)[j].len() <= CHUNK_CHARS,
        forall|j: int|
            0 <= j < chunks_of(s).len() - 1 ==> #[trigger] chunks_of(s)[j].len() == CHUNK_CHARS,
    decreases s.len(),
{
    if s.len() == 0 {
    } else if s.len() <= CHUNK_CHARS {
        let c = chunks_of(s);
        assert(c.drop_first() =~= seq![]);
        assert(joined(c.drop_first()) =~= seq![]);
        assert(s + seq![] =~= s);
    } else {
        let rest = s.skip(CHUNK_CHARS as int);
        lemma_chunks_reassemble(rest);
        let c = chunks_of(s);
        assert(c.drop_first() =~= chunks_of(rest));
        assert(s.take(CHUNK_CHARS as int) + rest =~= s);
        assert forall|j: int| 0 <= j < c.len() implies 0 < #[trigger] c[j].len() <= CHUNK_CHARS by {
            if j > 0 {
                assert(c[j] == chunks_of(rest)[j - 1]);
            }
        }
        assert forall|j: int| 0 <= j < c.len() - 1 implies #[trigger] c[j].len() == CHUNK_CHARS by {
            if j > 0 {
                assert(c[j] == chunks_of(rest)[j - 1]);
            }
        }
    }
}

/// The page citation `[page] ` as a string.
pub fn page_label_string(page: usize) -> (s: String)
    ensures
        s@ == page_label(page as nat),
        s@ == seq!['['] + decimal(page as nat) + seq![']', ' '],
{
    let mut v: Vec<char> = Vec::new();
    v.push('[');
    push_decimal(page, &mut v);
    v.push(']');
    v.push(' ');
    assert(v@ =~= page_label(page as nat));
    string_from_chars(&v)
}

/// Cuts the text of page `page` into chunks of `CHUNK_CHARS` characters and
/// starts each with the page citation `[page] `.
pub fn label_chunks(page: usize, text: &str) -> (r: Vec<String>)
    ensures
        r@.len() == chunks_of(text@).len(),
        forall|j: int|
            0 <= j < r@.len() ==> #[trigger] r@[j]@ == page_label(page as nat) + chunks_of(
                text@,
            )[j],
        r@.len() == (text@.len() + 199) / 200,
        forall|j: int|
            0 <= j < r@.len() ==> #[trigger] r@[j]@ == seq!['['] + decimal(page as nat) + seq![
                ']',
                ' ',
            ] + text@.subrange(
                200 * j,
                if 200 * j + 200 <= text@.len() {
                    200 * j + 200
                } else {
                    text@.len() as int
                },
            ),
{
    let chars = chars_of(text);
    let n = chars.len();
    let mut out: Vec<String> = Vec::new();
    let mut start: usize = 0;
    let ghost done: Seq<Seq<char>> = seq![];
    assert(chars@.skip(0) =~= chars@);
    assert(done + chunks_of(chars@) =~= chunks_of(chars@));
    while start < n
        invariant
            start <= n,
            n == chars@.len(),
            chars@ == text@,
            done + chunks_of(chars@.skip(start as int)) == chunks_of(chars@),
            out@.len() == done.len(),
            forall|j: int|
                0 <= j < out@.len() ==> #[trigger] out@[j]@ == page_label(page as nat) + done[j],
        decreases n - start,
    {
        let end = if n - start > CHUNK_CHARS {
            start + CHUNK_CHARS
        } else {
            n
        };
        proof {
            lemma_chunks_step(chars@, start as int);
        }
        let mut piece: Vec<char> = Vec::new();
        piece.push('[');
        push_decimal(page, &mut piece);
        piece.push(']');
        piece.push(' ');
        assert(piece@ =~= page_label(page as nat));
        let mut i = start;
        while i < end
            invariant
                start <= i <= end <= n,
                n == chars@.len(),
                piece@ == page_label(page as nat) + chars@.subrange(start as int, i as int),
            decreases end - i,
        {
            piece.push(chars[i]);
            i = i + 1;
            assert(piece@ =~= page_label(page as nat) + chars@.subrange(start as int, i as int));
        }
        let s = string_from_chars(&piece);
        out.push(s);
        proof {
            let body = chars@.subrange(start as int, end as int);
            let d2 = done.push(body);
            assert(d2 + chunks_of(chars@.skip(end as int)) =~= done + (seq![body] + chunks_of(
                chars@.skip(end as int),
            )));
            assert forall|j: int| 0 <= j < out@.len() implies #[trigger] out@[j]@ == page_label(
                page as nat,
            ) + d2[j] by {
                if j < out@.len() - 1 {
                    assert(d2[j] == done[j]);
                }
            }
            done = d2;
        }
        start = end;
    }
    assert(chars@.skip(n as int) =~= seq![]);
    assert(chunks_of(chars@.skip(n as int)) =~= seq![]);
    assert(done + seq![] =~= done);
    proof {
        lemma_chunks_are_runs(text@);
        lemma_page_label_cites(page as nat);
    }
    out
}

} // verus!
