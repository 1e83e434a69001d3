//! Character-level text handling: the views of lines, whitespace-separated
//! tokens, substring search and number formatting that the device tools'
//! output and the user-facing messages are built from.
use vstd::prelude::*;

verus! {

// ---------------------------------------------------------------------------
// Characters
// ---------------------------------------------------------------------------

/// The Unicode `White_Space` property, as `char::is_whitespace` decides it.
pub open spec fn is_white_space(c: char) -> bool {
    let u = c as u32;
    ||| u == 0x09 || u == 0x0A || u == 0x0B || u == 0x0C || u == 0x0D || u == 0x20
    ||| u == 0x85 || u == 0xA0 || u == 0x1680
    ||| 0x2000 <= u && u <= 0x200A
    ||| u == 0x2028 || u == 0x2029 || u == 0x202F || u == 0x205F || u == 0x3000
}

/// Executable form of [`is_white_space`].
pub fn white_space(c: char) -> (r: bool)
    ensures
        r == is_white_space(c),
{
    let u = c as u32;
    u == 0x09 || u == 0x0A || u == 0x0B || u == 0x0C || u == 0x0D || u == 0x20 || u == 0x85
        || u == 0xA0 || u == 0x1680 || (0x2000 <= u && u <= 0x200A) || u == 0x2028 || u
        == 0x2029 || u == 0x202F || u == 0x205F || u == 0x3000
}

/// The characters of a string slice, one per element.
pub fn chars_of(s: &str) -> (r: Vec<char>)
    ensures
        r@ == s@,
{
    let n = s.unicode_len();
    let mut r: Vec<char> = Vec::new();
    let mut i: usize = 0;
    while i < n
        invariant
            n == s@.len(),
            i <= n,
            r@ == s@.take(i as int),
        decreases n - i,
    {
        let c = s.get_char(i);
        r.push(c);
        i = i + 1;
        assert(r@ =~= s@.take(i as int));
    }
    assert(r@ =~= s@);
    r
}

/// Whether the characters `cs[lo..hi]` spell out `lit`.
pub fn range_equals(cs: &Vec<char>, lo: usize, hi: usize, lit: &str) -> (r: bool)
    requires
        lo <= hi <= cs@.len(),
    ensures
        r == (cs@.subrange(lo as int, hi as int) == lit@),
{
    let n = lit.unicode_len();
    if hi - lo != n {
        assert(cs@.subrange(lo as int, hi as int).len() != lit@.len());
        return false;
    }
    let mut k: usize = 0;
    while k < n
        invariant
            n == lit@.len(),
            hi - lo == n,
            lo <= hi <= cs@.len(),
            k <= n,
            forall|j: int| 0 <= j < k ==> cs@[lo + j] == lit@[j],
        decreases n - k,
    {
        if cs[lo + k] != lit.get_char(k) {
            assert(cs@.subrange(lo as int, hi as int)[k as int] != lit@[k as int]);
            return false;
        }
        k = k + 1;
    }
    assert(cs@.subrange(lo as int, hi as int) =~= lit@);
    true
}

// ---------------------------------------------------------------------------
// Ranges of a character sequence
// ---------------------------------------------------------------------------

/// Every range lies within a sequence of length `len`, start before end.
pub open spec fn ranges_within(r: Seq<(usize, usize)>, len: int) -> bool {
    forall|k: int| 0 <= k < r.len() ==> #[trigger] r[k].0 <= r[k].1 && r[k].1 <= len
}

/// The pieces of `s` that the ranges select, in order.
pub open spec fn pieces(s: Seq<char>, r: Seq<(usize, usize)>) -> Seq<Seq<char>> {
    r.map_values(|p: (usize, usize)| s.subrange(p.0 as int, p.1 as int))
}

proof fn lemma_pieces_push(s: Seq<char>, r: Seq<(usize, usize)>, p: (usize, usize))
    ensures
        pieces(s, r.push(p)) == pieces(s, r).push(s.subrange(p.0 as int, p.1 as int)),
{
    assert(pieces(s, r.push(p)) =~= pieces(s, r).push(s.subrange(p.0 as int, p.1 as int)));
}

// ---------------------------------------------------------------------------
// Lines, as `str::lines` yields them
// ---------------------------------------------------------------------------

/// How many characters precede the first `'\n'` of `s` (all of them if none).
pub open spec fn line_len(s: Seq<char>) -> nat
    decreases s.len(),
{
    if s.len() == 0 {
        0
    } else if s[0] == '\n' {
        0
    } else {
        1 + line_len(s.drop_first())
    }
}

/// A line with the `'\r'` of a `"\r\n"` ending removed.
pub open spec fn strip_cr(l: Seq<char>) -> Seq<char> {
    if l.len() > 0 && l.last() == '\r' {
        l.drop_last()
    } else {
        l
    }
}

/// The lines of a text: pieces ended by `'\n'` (or `"\r\n"`), the ending not
/// included; a last piece without an ending counts as a line, an empty text
/// has none, and a final `'\n'` does not start another line.
pub open spec fn lines(s: Seq<char>) -> Seq<Seq<char>>
    decreases s.len(),
{
    if s.len() == 0 {
        seq![]
    } else {
        let k = line_len(s);
        if k >= s.len() {
            seq![s]
        } else {
            seq![strip_cr(s.take(k as int))] + lines(s.skip(k + 1 as int))
        }
    }
}

proof fn lemma_line_len(s: Seq<char>, k: int)
    requires
        0 <= k <= s.len(),
        forall|j: int| 0 <= j < k ==> s[j] != '\n',
        k == s.len() || s[k] == '\n',
    ensures
        line_len(s) == k,
    decreases k,
{
    if k > 0 {
        lemma_line_len(s.drop_first(), k - 1);
    }
}

/// A non-empty text without a newline is one line.
pub proof fn lemma_lines_of_one_line(l: Seq<char>)
    requires
        l.len() > 0,
        forall|j: int| 0 <= j < l.len() ==> l[j] != '\n',
    ensures
        lines(l) == seq![l],
{
    lemma_line_len(l, l.len() as int);
}

/// Two texts without newlines, joined by one newline, are two lines, the
/// first without the `'\r'` of a `"\r\n"` ending.
pub proof fn lemma_lines_of_two_lines(h: Seq<char>, l: Seq<char>)
    requires
        l.len() > 0,
        forall|j: int| 0 <= j < h.len() ==> h[j] != '\n',
        forall|j: int| 0 <= j < l.len() ==> l[j] != '\n',
    ensures
        lines(h + seq!['\n'] + l) == seq![strip_cr(h), l],
{
    let s = h + seq!['\n'] + l;
    let n = h.len() as int;
    assert forall|j: int| 0 <= j < n implies s[j] != '\n' by {
        assert(s[j] == h[j]);
    }
    assert(s[n] == '\n');
    lemma_line_len(s, n);
    assert(s.take(n) =~= h);
    assert(s.skip(n + 1) =~= l);
    lemma_lines_of_one_line(l);
    assert(lines(s) =~= seq![strip_cr(h), l]);
}

/// The ranges of the lines of `cs`, as [`lines`] cuts them.
pub fn line_ranges(cs: &Vec<char>) -> (r: Vec<(usize, usize)>)
    ensures
        ranges_within(r@, cs@.len() as int),
        pieces(cs@, r@) == lines(cs@),
{
    let n = cs.len();
    let mut r: Vec<(usize, usize)> = Vec::new();
    let mut start: usize = 0;
    let mut i: usize = 0;
    assert(cs@.skip(0) =~= cs@);
    while i < n
        invariant
            n == cs@.len(),
            start <= i <= n,
            forall|j: int| start <= j < i ==> cs@[j] != '\n',
            ranges_within(r@, n as int),
            pieces(cs@, r@) + lines(cs@.skip(start as int)) == lines(cs@),
        decreases n - i,
    {
        if cs[i] == '\n' {
            let end = if i > start && cs[i - 1] == '\r' {
                i - 1
            } else {
                i
            };
            proof {
                let rest = cs@.skip(start as int);
                let k = i - start;
                lemma_line_len(rest, k as int);
                assert(rest.take(k as int) =~= cs@.subrange(start as int, i as int));
                assert(strip_cr(rest.take(k as int)) =~= cs@.subrange(start as int, end as int));
                assert(rest.skip(k + 1) =~= cs@.skip(i + 1));
                lemma_pieces_push(cs@, r@, (start, end));
                assert(lines(rest) == seq![cs@.subrange(start as int, end as int)] + lines(
                    cs@.skip(i + 1),
                ));
                assert(pieces(cs@, r@) + (seq![cs@.subrange(start as int, end as int)] + lines(
                    cs@.skip(i + 1),
                )) =~= pieces(cs@, r@).push(cs@.subrange(start as int, end as int)) + lines(
                    cs@.skip(i + 1),
                ));
            }
            r.push((start, end));
            start = i + 1;
        }
        i = i + 1;
    }
    if start < n {
        proof {
            let rest = cs@.skip(start as int);
            lemma_line_len(rest, (n - start) as int);
            assert(rest =~= cs@.subrange(start as int, n as int));
            lemma_pieces_push(cs@, r@, (start, n));
            assert(pieces(cs@, r@) + seq![rest] =~= pieces(cs@, r@).push(rest));
        }
        r.push((start, n));
    } else {
        assert(pieces(cs@, r@) + lines(cs@.skip(start as int)) =~= pieces(cs@, r@));
    }
    r
}

// ---------------------------------------------------------------------------
// Tokens, as `str::split_whitespace` yields them
// ---------------------------------------------------------------------------

/// How many characters precede the first whitespace of `s` (all if none).
pub open spec fn word_len(s: Seq<char>) -> nat
    decreases s.len(),
{
    if s.len() == 0 {
        0
    } else if is_white_space(s[0]) {
        0
    } else {
        1 + word_len(s.drop_first())
    }
}

/// The maximal runs of non-whitespace characters of `s`, in order.
pub open spec fn tokens(s: Seq<char>) -> Seq<Seq<char>>
    decreases s.len(),
{
    if s.len() == 0 {
        seq![]
    } else if is_white_space(s[0]) {
        tokens(s.drop_first())
    } else {
        let k = word_len(s);
        proof {
            lemma_word_len_bounded(s);
        }
        seq![s.take(k as int)] + tokens(s.skip(k as int))
    }
}

/// A word is never longer than its text, and is not empty where the text
/// starts with a non-whitespace character.
pub proof fn lemma_word_len_bounded(s: Seq<char>)
    ensures
        word_len(s) <= s.len(),
        s.len() > 0 && !is_white_space(s[0]) ==> word_len(s) > 0,
    decreases s.len(),
{
    if s.len() > 0 {
        lemma_word_len_bounded(s.drop_first());
    }
}

proof fn lemma_word_len(s: Seq<char>, k: int)
    requires
        0 <= k <= s.len(),
        forall|j: int| 0 <= j < k ==> !is_white_space(#[trigger] s[j]),
        k == s.len() || is_white_space(s[k]),
    ensures
        word_len(s) == k,
    decreases k,
{
    if k > 0 {
        assert forall|j: int| 0 <= j < k - 1 implies !is_white_space(#[trigger] s.drop_first()[j]) by {
            assert(s.drop_first()[j] == s[j + 1]);
        }
        lemma_word_len(s.drop_first(), k - 1);
    }
}

/// A non-empty run of characters none of which is whitespace.
pub open spec fn is_word(w: Seq<char>) -> bool {
    w.len() > 0 && forall|j: int| 0 <= j < w.len() ==> !is_white_space(#[trigger] w[j])
}

proof fn lemma_word_len_prefix(s: Seq<char>)
    ensures
        forall|j: int| 0 <= j < word_len(s) ==> !is_white_space(#[trigger] s[j]),
    decreases s.len(),
{
    if s.len() > 0 && !is_white_space(s[0]) {
        lemma_word_len_bounded(s);
        lemma_word_len_prefix(s.drop_first());
        assert forall|j: int| 0 <= j < word_len(s) implies !is_white_space(#[trigger] s[j]) by {
            if j > 0 {
                assert(s[j] == s.drop_first()[j - 1]);
            }
        }
    }
}

/// Every token is a word: not empty, and free of whitespace.
pub proof fn lemma_tokens_are_words(s: Seq<char>)
    ensures
        forall|k: int| 0 <= k < tokens(s).len() ==> is_word(#[trigger] tokens(s)[k]),
    decreases s.len(),
{
    if s.len() > 0 {
        if is_white_space(s[0]) {
            lemma_tokens_are_words(s.drop_first());
            assert(tokens(s) == tokens(s.drop_first()));
        } else {
            let n = word_len(s);
            lemma_word_len_bounded(s);
            lemma_word_len_prefix(s);
            lemma_tokens_are_words(s.skip(n as int));
            let w = s.take(n as int);
            assert(is_word(w));
            assert(tokens(s) == seq![w] + tokens(s.skip(n as int)));
            assert(tokens(s)[0] == w);
            assert forall|k: int| 0 <= k < tokens(s).len() implies is_word(
                #[trigger] tokens(s)[k],
            ) by {
                if k > 0 {
                    assert(tokens(s)[k] == tokens(s.skip(n as int))[k - 1]);
                }
            }
        }
    }
}

/// Two words with one whitespace character between them are two tokens.
pub proof fn lemma_tokens_of_two_words(w1: Seq<char>, c: char, w2: Seq<char>)
    requires
        is_word(w1),
        is_word(w2),
        is_white_space(c),
    ensures
        tokens(w1 + seq![c] + w2) == seq![w1, w2],
{
    let s = w1 + seq![c] + w2;
    let n = w1.len() as int;
    assert forall|j: int| 0 <= j < n implies !is_white_space(#[trigger] s[j]) by {
        assert(s[j] == w1[j]);
    }
    assert(s[n] == c);
    lemma_word_len(s, n);
    assert(s.take(n) =~= w1);
    let rest = s.skip(n);
    assert(rest =~= seq![c] + w2);
    assert(rest.drop_first() =~= w2);
    assert(tokens(rest) == tokens(w2));
    lemma_word_len(w2, w2.len() as int);
    assert(w2.take(w2.len() as int) =~= w2);
    assert(w2.skip(w2.len() as int) =~= Seq::<char>::empty());
    assert(tokens(w2) == seq![w2] + tokens(Seq::<char>::empty()));
    assert(tokens(w2) =~= seq![w2]);
    assert(tokens(s) == seq![w1] + tokens(rest));
    assert(tokens(s) =~= seq![w1, w2]);
}

/// The ranges of the tokens of `cs[lo..hi]`, as [`tokens`] cuts them.
pub fn token_ranges(cs: &Vec<char>, lo: usize, hi: usize) -> (r: Vec<(usize, usize)>)
    requires
        lo <= hi <= cs@.len(),
    ensures
        ranges_within(r@, cs@.len() as int),
        forall|k: int| 0 <= k < r@.len() ==> lo <= (#[trigger] r@[k]).0,
        pieces(cs@, r@) == tokens(cs@.subrange(lo as int, hi as int)),
{
    let mut r: Vec<(usize, usize)> = Vec::new();
    let mut i: usize = lo;
    while i < hi
        invariant
            lo <= i <= hi <= cs@.len(),
            ranges_within(r@, cs@.len() as int),
            forall|k: int| 0 <= k < r@.len() ==> lo <= (#[trigger] r@[k]).0,
            pieces(cs@, r@) + tokens(cs@.subrange(i as int, hi as int)) == tokens(
                cs@.subrange(lo as int, hi as int),
            ),
        decreases hi - i,
    {
        let rest = Ghost(cs@.subrange(i as int, hi as int));
        if white_space(cs[i]) {
            assert(rest@.drop_first() =~= cs@.subrange(i + 1, hi as int));
            i = i + 1;
        } else {
            let mut j: usize = i + 1;
            while j < hi && !white_space(cs[j])
                invariant
                    i < j <= hi <= cs@.len(),
                    forall|m: int| i <= m < j ==> !is_white_space(#[trigger] cs@[m]),
                decreases hi - j,
            {
                j = j + 1;
            }
            proof {
                assert forall|m: int| 0 <= m < j - i implies !is_white_space(#[trigger] rest@[m]) by {
                    assert(rest@[m] == cs@[i + m]);
                }
                if j < hi {
                    assert(rest@[j - i] == cs@[j as int]);
                }
                lemma_word_len(rest@, (j - i) as int);
                assert(rest@.take((j - i) as int) =~= cs@.subrange(i as int, j as int));
                assert(rest@.skip((j - i) as int) =~= cs@.subrange(j as int, hi as int));
                lemma_pieces_push(cs@, r@, (i, j));
                assert(pieces(cs@, r@) + (seq![cs@.subrange(i as int, j as int)] + tokens(
                    cs@.subrange(j as int, hi as int),
                )) =~= pieces(cs@, r@).push(cs@.subrange(i as int, j as int)) + tokens(
                    cs@.subrange(j as int, hi as int),
                ));
            }
            r.push((i, j));
            i = j;
        }
    }
    assert(pieces(cs@, r@) + tokens(cs@.subrange(i as int, hi as int)) =~= pieces(cs@, r@));
    r
}

// ---------------------------------------------------------------------------
// Substring search, as `str::find` does it
// ---------------------------------------------------------------------------

/// `pat` occurs in `s` starting at position `i`.
pub open spec fn occurs_at(s: Seq<char>, pat: Seq<char>, i: int) -> bool {
    0 <= i && i + pat.len() <= s.len() && s.subrange(i, i + pat.len()) == pat
}

/// `i` is the first position at which `pat` occurs in `s`.
pub open spec fn is_first_occurrence(s: Seq<char>, pat: Seq<char>, i: int) -> bool {
    occurs_at(s, pat, i) && forall|j: int| 0 <= j < i ==> !occurs_at(s, pat, j)
}

/// The first position at which `pat` occurs in `s`, if it occurs at all.
pub open spec fn first_occurrence(s: Seq<char>, pat: Seq<char>) -> Option<int> {
    if exists|i: int| is_first_occurrence(s, pat, i) {
        Some(choose|i: int| is_first_occurrence(s, pat, i))
    } else {
        None
    }
}

/// There is at most one first occurrence.
pub proof fn lemma_first_occurrence_unique(s: Seq<char>, pat: Seq<char>, i: int, j: int)
    requires
        is_first_occurrence(s, pat, i),
        is_first_occurrence(s, pat, j),
    ensures
        i == j,
{
}

/// Where `pat` first occurs in `cs`, as `str::find` reports it (counted in
/// characters).
pub fn find_chars(cs: &Vec<char>, pat: &str) -> (r: Option<usize>)
    ensures
        r matches Some(i) ==> first_occurrence(cs@, pat@) == Some(i as int),
        r is None ==> first_occurrence(cs@, pat@) is None,
        r is None ==> forall|j: int| !occurs_at(cs@, pat@, j),
{
    let n = cs.len();
    let m = pat.unicode_len();
    if m > n {
        return None;
    }
    if m == 0 {
        proof {
            assert(cs@.subrange(0, 0) =~= pat@);
            assert(is_first_occurrence(cs@, pat@, 0));
            let k = choose|k: int| is_first_occurrence(cs@, pat@, k);
            lemma_first_occurrence_unique(cs@, pat@, 0, k);
        }
        return Some(0);
    }
    let mut i: usize = 0;
    while i < n - m + 1
        invariant
            n == cs@.len(),
            m == pat@.len(),
            0 < m <= n,
            i <= n - m + 1,
            forall|j: int| 0 <= j < i ==> !occurs_at(cs@, pat@, j),
        decreases n - m + 1 - i,
    {
        if range_equals(cs, i, i + m, pat) {
            proof {
                assert(is_first_occurrence(cs@, pat@, i as int));
                let k = choose|k: int| is_first_occurrence(cs@, pat@, k);
                lemma_first_occurrence_unique(cs@, pat@, i as int, k);
            }
            return Some(i);
        }
        i = i + 1;
    }
    None
}

/// `suffix` ends `s`.
pub open spec fn ends_with(s: Seq<char>, suffix: Seq<char>) -> bool {
    suffix.len() <= s.len() && s.subrange(s.len() - suffix.len(), s.len() as int) == suffix
}

/// Whether `cs` ends with `suffix`, as `str::ends_with` decides it.
pub fn ends_with_chars(cs: &Vec<char>, suffix: &str) -> (r: bool)
    ensures
        r == ends_with(cs@, suffix@),
{
    let m = suffix.unicode_len();
    if m > cs.len() {
        return false;
    }
    range_equals(cs, cs.len() - m, cs.len(), suffix)
}

// ---------------------------------------------------------------------------
// Number formatting
// ---------------------------------------------------------------------------

/// The lowercase hexadecimal digit of `d` (also the decimal digit, below ten).
pub open spec fn digit_char(d: int) -> char {
    seq!['0', '1', '2', '3', '4', '5', '6', '7', '8', '9', 'a', 'b', 'c', 'd', 'e', 'f'][d]
}

/// `format!("{:04x}", v)`: four lowercase hexadecimal digits.
pub open spec fn hex4(v: u16) -> Seq<char> {
    seq![
        digit_char(v as int / 4096),
        digit_char((v as int / 256) % 16),
        digit_char((v as int / 16) % 16),
        digit_char(v as int % 16),
    ]
}

/// `format!("{}", n)`: decimal digits without leading zeros.
pub open spec fn decimal(n: nat) -> Seq<char>
    decreases n,
{
    if n < 10 {
        seq![digit_char(n as int)]
    } else {
        decimal(n / 10).push(digit_char(n as int % 10))
    }
}

/// Appends the digit `d` to `s`.
fn push_digit(s: &mut String, d: u16)
    requires
        d < 16,
    ensures
        final(s)@ == old(s)@.push(digit_char(d as int)),
{
    let digits = "0123456789abcdef";
    proof {
        reveal_strlit("0123456789abcdef");
    }
    let one = digits.substring_char(d as usize, d as usize + 1);
    assert(one@ =~= seq![digit_char(d as int)]);
    s.append(one);
}

/// Four lowercase hexadecimal digits of `v`, zero-padded.
pub fn hex4_string(v: u16) -> (r: String)
    ensures
        r@ == hex4(v),
{
    let mut s = String::new();
    push_digit(&mut s, v / 4096);
    push_digit(&mut s, (v / 256) % 16);
    push_digit(&mut s, (v / 16) % 16);
    push_digit(&mut s, v % 16);
    assert(s@ =~= hex4(v));
    s
}

/// The decimal digits of `n`.
pub fn decimal_string(n: usize) -> (r: String)
    ensures
        r@ == decimal(n as nat),
    decreases n,
{
    if n < 10 {
        let mut s = String::new();
        push_digit(&mut s, n as u16);
        assert(s@ =~= decimal(n as nat));
        s
    } else {
        let mut s = decimal_string(n / 10);
        push_digit(&mut s, (n % 10) as u16);
        s
    }
}

// ---------------------------------------------------------------------------
// Bytes to text
// ---------------------------------------------------------------------------

/// Decodes bytes as UTF-8, refusing them when they are not valid UTF-8.
///
/// Trusted: calls `String::from_utf8`. Claims what its documentation states:
/// the result is `Ok` exactly for valid UTF-8, and then holds the characters
/// that the bytes encode.
#[verifier::external_body]
pub(crate) fn utf8_text(bytes: &[u8]) -> (r: Option<String>)
    ensures
        r is Some <==> vstd::utf8::valid_utf8(bytes@),
        r matches Some(t) ==> t@ == vstd::utf8::decode_utf8(bytes@),
{
    String::from_utf8(bytes.to_vec()).ok()
}

/// What `String::from_utf8_lossy` makes of `bytes`: invalid sequences are
/// replaced by U+FFFD.
pub uninterp spec fn utf8_lossy(bytes: Seq<u8>) -> Seq<char>;

/// Decodes bytes as UTF-8, replacing invalid sequences.
///
/// Trusted: calls `String::from_utf8_lossy`. Claims that the result is the
/// named value [`utf8_lossy`] of the bytes, and, as the documentation states,
/// that valid UTF-8 is decoded unchanged. How invalid sequences are replaced
/// is left unsaid.
#[verifier::external_body]
pub(crate) fn utf8_lossy_text(bytes: &[u8]) -> (r: String)
    ensures
        r@ == utf8_lossy(bytes@),
        vstd::utf8::valid_utf8(bytes@) ==> r@ == vstd::utf8::decode_utf8(bytes@),
{
    String::from_utf8_lossy(bytes).into_owned()
}

// ---------------------------------------------------------------------------
// Ordering of texts
// ---------------------------------------------------------------------------

/// Lexicographic order of texts by code point, which is also the byte order
/// of their UTF-8 encodings: `a` comes no later than `b`.
pub open spec fn text_le(a: Seq<char>, b: Seq<char>) -> bool
    decreases a.len(),
{
    if a.len() == 0 {
        true
    } else if b.len() == 0 {
        false
    } else if a[0] < b[0] {
        true
    } else if a[0] > b[0] {
        false
    } else {
        text_le(a.drop_first(), b.drop_first())
    }
}

/// [`text_le`] as a relation.
pub open spec fn text_order() -> spec_fn(Seq<char>, Seq<char>) -> bool {
    |a: Seq<char>, b: Seq<char>| text_le(a, b)
}

proof fn lemma_text_le_reflexive(a: Seq<char>)
    ensures
        text_le(a, a),
    decreases a.len(),
{
    if a.len() > 0 {
        lemma_text_le_reflexive(a.drop_first());
    }
}

proof fn lemma_text_le_total(a: Seq<char>, b: Seq<char>)
    ensures
        text_le(a, b) || text_le(b, a),
    decreases a.len(),
{
    if a.len() > 0 && b.len() > 0 {
        lemma_text_le_total(a.drop_first(), b.drop_first());
    }
}

proof fn lemma_text_le_antisymmetric(a: Seq<char>, b: Seq<char>)
    requires
        text_le(a, b),
        text_le(b, a),
    ensures
        a == b,
    decreases a.len(),
{
    if a.len() > 0 && b.len() > 0 {
        lemma_text_le_antisymmetric(a.drop_first(), b.drop_first());
        assert(a[0] == b[0]);
        assert forall|i: int| 0 <= i < a.len() implies a[i] == b[i] by {
            if i > 0 {
                assert(a[i] == a.drop_first()[i - 1]);
                assert(b[i] == b.drop_first()[i - 1]);
            }
        }
        assert(a =~= b);
    }
}

proof fn lemma_text_le_transitive(a: Seq<char>, b: Seq<char>, c: Seq<char>)
    requires
        text_le(a, b),
        text_le(b, c),
    ensures
        text_le(a, c),
    decreases a.len(),
{
    if a.len() > 0 && b.len() > 0 && c.len() > 0 && a[0] == b[0] && b[0] == c[0] {
        lemma_text_le_transitive(a.drop_first(), b.drop_first(), c.drop_first());
    }
}

/// Texts ordered by [`text_le`] form a total order.
pub proof fn lemma_text_order_total()
    ensures
        vstd::relations::total_ordering(text_order()),
{
    assert forall|a: Seq<char>| #[trigger] text_order()(a, a) by {
        lemma_text_le_reflexive(a);
    }
    assert forall|a: Seq<char>, b: Seq<char>|
        #[trigger] text_order()(a, b) && #[trigger] text_order()(b, a) implies a == b by {
        lemma_text_le_antisymmetric(a, b);
    }
    assert forall|a: Seq<char>, b: Seq<char>, c: Seq<char>|
        #[trigger] text_order()(a, b) && #[trigger] text_order()(b, c) implies text_order()(
        a,
        c,
    ) by {
        lemma_text_le_transitive(a, b, c);
    }
    assert forall|a: Seq<char>, b: Seq<char>|
        #[trigger] text_order()(a, b) || #[trigger] text_order()(b, a) by {
        lemma_text_le_total(a, b);
    }
}

/// Whether `a` comes no later than `b` in [`text_le`] order.
pub fn chars_le(a: &Vec<char>, b: &Vec<char>) -> (r: bool)
    ensures
        r == text_le(a@, b@),
{
    let mut i: usize = 0;
    assert(a@.skip(0) =~= a@);
    assert(b@.skip(0) =~= b@);
    while i < a.len() && i < b.len()
        invariant
            i <= a@.len(),
            i <= b@.len(),
            text_le(a@, b@) == text_le(a@.skip(i as int), b@.skip(i as int)),
        decreases a@.len() - i,
    {
        let x = a[i];
        let y = b[i];
        if x < y {
            return true;
        }
        if x > y {
            return false;
        }
        assert(a@.skip(i as int).drop_first() =~= a@.skip(i + 1));
        assert(b@.skip(i as int).drop_first() =~= b@.skip(i + 1));
        i = i + 1;
    }
    i == a.len()
}

/// Lemmas that the ordering of texts needs from its properties.
pub proof fn lemma_text_le_facts(a: Seq<char>, b: Seq<char>, c: Seq<char>)
    ensures
        text_le(a, b) || text_le(b, a),
        text_le(a, b) && text_le(b, c) ==> text_le(a, c),
{
    lemma_text_le_total(a, b);
    if text_le(a, b) && text_le(b, c) {
        lemma_text_le_transitive(a, b, c);
    }
}

} // verus!
