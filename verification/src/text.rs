use vstd::prelude::*;
use vstd::std_specs::iter::IteratorSpec;

verus! {

broadcast use vstd::string::group_string_axioms;

/// Appends one character to a `String` (`String::push`).
#[verifier::external_body]
pub(crate) fn string_push(s: &mut String, c: char)
    ensures
        final(s)@ == old(s)@.push(c),
{
    s.push(c);
}

/// What `String::from_utf8_lossy` makes of a byte sequence.
pub uninterp spec fn utf8_lossy(bytes: Seq<u8>) -> Seq<char>;

/// Calls `String::from_utf8_lossy`. Claimed: the result is `utf8_lossy` of
/// the bytes, and when the bytes are valid UTF-8 it is exactly their
/// decoding (the function's documentation says it then borrows the input
/// unchanged). What it does with invalid sequences is left unsaid.
#[verifier::external_body]
pub(crate) fn utf8_lossy_string(bytes: &[u8]) -> (r: String)
    ensures
        r@ == utf8_lossy(bytes@),
        vstd::utf8::valid_utf8(bytes@) ==> r@ == vstd::utf8::decode_utf8(bytes@),
{
    String::from(String::from_utf8_lossy(bytes))
}

/// Calls `String::from_utf8`. Claimed: it succeeds exactly on valid UTF-8,
/// and then holds the decoded characters.
#[verifier::external_body]
pub(crate) fn string_from_utf8(bytes: Vec<u8>) -> (r: Option<String>)
    ensures
        r is Some <==> vstd::utf8::valid_utf8(bytes@),
        r matches Some(s) ==> s@ == vstd::utf8::decode_utf8(bytes@),
{
    String::from_utf8(bytes).ok()
}

/// What `str::to_lowercase` gives for a text.
pub uninterp spec fn lowercase(text: Seq<char>) -> Seq<char>;

/// An ASCII character in lower case: `A` to `Z` become `a` to `z`.
pub open spec fn ascii_lower(c: char) -> char {
    if 'A' <= c && c <= 'Z' {
        ((c as u32) + 32) as char
    } else {
        c
    }
}

/// Every character of `s` is ASCII.
pub open spec fn all_ascii(s: Seq<char>) -> bool {
    forall|i: int| 0 <= i < s.len() ==> (#[trigger] s[i] as u32) < 128
}

/// Calls `str::to_lowercase`. Claimed: the result is `lowercase` of the
/// text, and for ASCII text it is the text with `A` to `Z` in lower case
/// (ASCII letters have single-letter lower cases, and other ASCII characters
/// none). The Unicode case mapping of other characters is left unsaid.
#[verifier::external_body]
pub(crate) fn to_lowercase(s: &str) -> (r: String)
    ensures
        r@ == lowercase(s@),
        all_ascii(s@) ==> r@ == s@.map_values(|c: char| ascii_lower(c)),
{
    s.to_lowercase()
}

/// Whether two character slices are equal.
pub fn chars_equal(a: &[char], b: &[char]) -> (r: bool)
    ensures
        r == (a@ == b@),
{
    if a.len() != b.len() {
        return false;
    }
    let mut i: usize = 0;
    while i < a.len()
        invariant
            a@.len() == b@.len(),
            i <= a@.len(),
            forall|j: int| 0 <= j < i ==> a@[j] == b@[j],
        decreases a@.len() - i,
    {
        if a[i] != b[i] {
            return false;
        }
        i += 1;
    }
    assert(a@ =~= b@);
    true
}

/// Whether two strings are equal.
pub fn str_equal(a: &str, b: &str) -> (r: bool)
    ensures
        r == (a@ == b@),
{
    let ac = chars_of(a);
    let bc = chars_of(b);
    chars_equal(ac.as_slice(), bc.as_slice())
}

/// The characters of a string slice, in order.
pub fn chars_of(s: &str) -> (out: Vec<char>)
    ensures
        out@ == s@,
{
    let mut out: Vec<char> = Vec::new();
    for c in it: s.chars()
        invariant
            out@ == it.seq().take(it.index() as int),
    {
        out.push(c);
    }
    out
}

/// Builds a `String` from a sequence of characters.
pub fn string_from_chars(cs: &[char]) -> (out: String)
    ensures
        out@ == cs@,
{
    let mut out = String::new();
    let mut i: usize = 0;
    while i < cs.len()
        invariant
            i <= cs@.len(),
            out@ == cs@.take(i as int),
        decreases cs@.len() - i,
    {
        string_push(&mut out, cs[i]);
        i += 1;
        assert(out@ =~= cs@.take(i as int));
    }
    assert(cs@.take(cs@.len() as int) =~= cs@);
    out
}


// ------------------------------------------------------------------
// Searching and splitting
// ------------------------------------------------------------------

/// The character sequences held by a vector of character vectors.
pub open spec fn views(v: Seq<Vec<char>>) -> Seq<Seq<char>> {
    v.map_values(|x: Vec<char>| x@)
}

/// `p` occurs in `s` at position `i`.
pub open spec fn matches_at(s: Seq<char>, p: Seq<char>, i: int) -> bool {
    0 <= i && i + p.len() <= s.len() && s.subrange(i, i + p.len()) == p
}

/// The first position at or after `i` where `p` occurs in `s`.
pub open spec fn find_from(s: Seq<char>, p: Seq<char>, i: int) -> Option<int>
    decreases s.len() + 1 - i,
{
    if i < 0 || i + p.len() > s.len() {
        None
    } else if matches_at(s, p, i) {
        Some(i)
    } else {
        find_from(s, p, i + 1)
    }
}

/// The pieces of `s[start..]` between non-overlapping occurrences of `p`,
/// scanning from the left (what `str::split` with a string pattern yields).
pub open spec fn split_from(s: Seq<char>, p: Seq<char>, start: int) -> Seq<Seq<char>>
    decreases s.len() - start,
{
    if p.len() == 0 || start < 0 || start > s.len() {
        seq![]
    } else {
        match find_from(s, p, start) {
            None => seq![s.subrange(start, s.len() as int)],
            Some(k) => if k + p.len() <= s.len() && k >= start {
                seq![s.subrange(start, k)] + split_from(s, p, k + p.len())
            } else {
                seq![]
            },
        }
    }
}

/// `str::split` with a non-empty string pattern.
pub open spec fn split(s: Seq<char>, p: Seq<char>) -> Seq<Seq<char>> {
    split_from(s, p, 0)
}

pub proof fn lemma_find_from_bounds(s: Seq<char>, p: Seq<char>, i: int)
    requires
        0 <= i,
    ensures
        match find_from(s, p, i) {
            Some(k) => i <= k && matches_at(s, p, k) && forall|j: int|
                i <= j < k ==> !matches_at(s, p, j),
            None => forall|j: int| i <= j ==> !matches_at(s, p, j),
        },
    decreases s.len() + 1 - i,
{
    if i + p.len() > s.len() {
    } else if matches_at(s, p, i) {
    } else {
        lemma_find_from_bounds(s, p, i + 1);
    }
}

/// Appends characters to a vector.
pub fn append_chars(out: &mut Vec<char>, cs: &[char])
    ensures
        final(out)@ == old(out)@ + cs@,
{
    let ghost before = out@;
    let mut k: usize = 0;
    while k < cs.len()
        invariant
            k <= cs@.len(),
            out@ == before + cs@.take(k as int),
        decreases cs@.len() - k,
    {
        out.push(cs[k]);
        k += 1;
        assert(out@ =~= before + cs@.take(k as int));
    }
    assert(cs@.take(k as int) =~= cs@);
}

/// A copy of `s[from..to]`.
pub fn sub_chars(s: &[char], from: usize, to: usize) -> (r: Vec<char>)
    requires
        from <= to <= s@.len(),
    ensures
        r@ == s@.subrange(from as int, to as int),
{
    let mut r: Vec<char> = Vec::new();
    let mut i = from;
    while i < to
        invariant
            from <= i <= to <= s@.len(),
            r@ == s@.subrange(from as int, i as int),
        decreases to - i,
    {
        r.push(s[i]);
        i += 1;
        assert(r@ =~= s@.subrange(from as int, i as int));
    }
    r
}

/// Whether `p` occurs in `s` at `i`.
pub fn chars_match_at(s: &[char], p: &[char], i: usize) -> (r: bool)
    ensures
        r == matches_at(s@, p@, i as int),
{
    if i > s.len() || p.len() > s.len() - i {
        return false;
    }
    let mut j: usize = 0;
    while j < p.len()
        invariant
            i + p.len() <= s.len(),
            j <= p@.len(),
            forall|k: int| 0 <= k < j ==> s@[i + k] == p@[k],
        decreases p@.len() - j,
    {
        assert(i + j < s@.len());
        if s[i + j] != p[j] {
            assert(s@.subrange(i as int, i + p@.len())[j as int] != p@[j as int]);
            return false;
        }
        j += 1;
    }
    assert(s@.subrange(i as int, i + p@.len()) =~= p@);
    true
}

/// The first occurrence of `p` in `s` at or after `start`.
pub fn find_chars(s: &[char], p: &[char], start: usize) -> (r: Option<usize>)
    ensures
        match r {
            Some(k) => find_from(s@, p@, start as int) == Some(k as int),
            None => find_from(s@, p@, start as int) is None,
        },
{
    let mut i = start;
    while i <= s.len() && p.len() <= s.len() - i
        invariant
            start <= i,
            find_from(s@, p@, start as int) == find_from(s@, p@, i as int),
        decreases s@.len() + 1 - i,
    {
        if chars_match_at(s, p, i) {
            return Some(i);
        }
        if i == s.len() {
            assert(find_from(s@, p@, i as int + 1) is None);
            return None;
        }
        i += 1;
    }
    None
}

/// `str::split` with a non-empty pattern, on characters.
pub fn split_chars(s: &[char], p: &[char]) -> (r: Vec<Vec<char>>)
    requires
        p@.len() > 0,
    ensures
        views(r@) == split(s@, p@),
{
    let mut out: Vec<Vec<char>> = Vec::new();
    let mut start: usize = 0;
    loop
        invariant
            p@.len() > 0,
            start <= s@.len(),
            views(out@) + split_from(s@, p@, start as int) == split(s@, p@),
        decreases s@.len() - start,
    {
        match find_chars(s, p, start) {
            None => {
                let piece = sub_chars(s, start, s.len());
                proof { lemma_find_from_bounds(s@, p@, start as int); }
                let ghost old_out = views(out@);
                out.push(piece);
                assert(views(out@) =~= old_out.push(s@.subrange(start as int, s@.len() as int)));
                return out;
            },
            Some(k) => {
                proof { lemma_find_from_bounds(s@, p@, start as int); }
                let piece = sub_chars(s, start, k);
                let ghost old_out = views(out@);
                out.push(piece);
                assert(views(out@) =~= old_out.push(s@.subrange(start as int, k as int)));
                assert(k + p@.len() <= s@.len());
                assert(s@.len() == s.len());
                start = k + p.len();
            },
        }
    }
}

// ------------------------------------------------------------------
// Lines
// ------------------------------------------------------------------

/// A line without its trailing carriage return, if it has one.
pub open spec fn strip_cr(x: Seq<char>) -> Seq<char> {
    if x.len() > 0 && x.last() == '\r' {
        x.drop_last()
    } else {
        x
    }
}

/// The lines of `s[start..]` as `str::lines` yields them: pieces ended by
/// `'\n'` (a `'\r'` just before it is dropped too); a final piece without
/// `'\n'` is kept as it is, and nothing follows a final `'\n'`.
pub open spec fn lines_from(s: Seq<char>, start: int) -> Seq<Seq<char>>
    decreases s.len() - start,
{
    if start < 0 || start >= s.len() {
        seq![]
    } else {
        match find_from(s, seq!['\n'], start) {
            None => seq![s.subrange(start, s.len() as int)],
            Some(k) => if start <= k < s.len() {
                seq![strip_cr(s.subrange(start, k))] + lines_from(s, k + 1)
            } else {
                seq![]
            },
        }
    }
}

/// `str::lines`.
pub open spec fn lines(s: Seq<char>) -> Seq<Seq<char>> {
    lines_from(s, 0)
}

/// `str::lines`, on characters.
pub fn lines_chars(s: &[char]) -> (r: Vec<Vec<char>>)
    ensures
        views(r@) == lines(s@),
{
    let mut out: Vec<Vec<char>> = Vec::new();
    let mut start: usize = 0;
    let nl: Vec<char> = vec!['\n'];
    assert(nl@ =~= seq!['\n']);
    while start < s.len()
        invariant
            nl@ == seq!['\n'],
            start <= s@.len(),
            views(out@) + lines_from(s@, start as int) == lines(s@),
        decreases s@.len() - start,
    {
        proof { lemma_find_from_bounds(s@, nl@, start as int); }
        let ghost old_out = views(out@);
        match find_chars(s, nl.as_slice(), start) {
            None => {
                let piece = sub_chars(s, start, s.len());
                out.push(piece);
                assert(views(out@) =~= old_out.push(s@.subrange(start as int, s@.len() as int)));
                return out;
            },
            Some(k) => {
                assert(s@.len() == s.len());
                let mut piece = sub_chars(s, start, k);
                if piece.len() > 0 && piece[piece.len() - 1] == '\r' {
                    piece.pop();
                }
                assert(piece@ =~= strip_cr(s@.subrange(start as int, k as int)));
                out.push(piece);
                assert(views(out@) =~= old_out.push(strip_cr(s@.subrange(start as int, k as int))));
                start = k + 1;
            },
        }
    }
    assert(views(out@) + lines_from(s@, start as int) =~= views(out@));
    out
}

// ------------------------------------------------------------------
// Prefixes and whitespace
// ------------------------------------------------------------------

/// `s` begins with `p`.
pub open spec fn starts_with(s: Seq<char>, p: Seq<char>) -> bool {
    p.len() <= s.len() && s.subrange(0, p.len() as int) == p
}

/// `str::trim_start_matches` with a string pattern: every leading copy of
/// `p` removed.
pub open spec fn trim_start_matches(s: Seq<char>, p: Seq<char>) -> Seq<char>
    decreases s.len(),
{
    if p.len() > 0 && starts_with(s, p) {
        trim_start_matches(s.skip(p.len() as int), p)
    } else {
        s
    }
}

/// Whether `s` begins with `p`.
pub fn chars_start_with(s: &[char], p: &[char]) -> (r: bool)
    ensures
        r == starts_with(s@, p@),
{
    let r = chars_match_at(s, p, 0);
    proof {
        if p@.len() <= s@.len() {
            assert(s@.subrange(0, p@.len() as int) =~= s@.subrange(0int, 0 + p@.len() as int));
        }
    }
    r
}

/// `str::trim_start_matches` with a string pattern, on characters.
#[verifier::rlimit(30)]
pub fn trim_start_matches_chars(s: &[char], p: &[char]) -> (r: Vec<char>)
    ensures
        r@ == trim_start_matches(s@, p@),
{
    if p.len() == 0 {
        return sub_chars(s, 0, s.len());
    }
    let mut start: usize = 0;
    assert(s@.skip(0) =~= s@);
    while start <= s.len() && p.len() <= s.len() - start && chars_match_at(s, p, start)
        invariant
            p@.len() > 0,
            start <= s@.len(),
            trim_start_matches(s@.skip(start as int), p@) == trim_start_matches(s@, p@),
        decreases s@.len() - start,
    {
        assert(s@.skip(start as int).subrange(0, p@.len() as int) =~= s@.subrange(
            start as int,
            start + p@.len(),
        ));
        assert(s@.skip(start as int).skip(p@.len() as int) =~= s@.skip(start + p@.len()));
        start = start + p.len();
    }
    proof {
        if p@.len() <= s@.skip(start as int).len() {
            assert(s@.skip(start as int).subrange(0, p@.len() as int) =~= s@.subrange(
                start as int,
                start + p@.len(),
            ));
        }
    }
    let r = sub_chars(s, start, s.len());
    assert(r@ =~= s@.skip(start as int));
    r
}

/// `char::is_whitespace`: the characters with the Unicode `White_Space`
/// property.
pub open spec fn is_whitespace(c: char) -> bool {
    ||| '\u{9}' <= c <= '\u{d}'
    ||| c == ' '
    ||| c == '\u{85}'
    ||| c == '\u{a0}'
    ||| c == '\u{1680}'
    ||| '\u{2000}' <= c <= '\u{200a}'
    ||| c == '\u{2028}'
    ||| c == '\u{2029}'
    ||| c == '\u{202f}'
    ||| c == '\u{205f}'
    ||| c == '\u{3000}'
}

/// Whether `c` is whitespace.
pub fn char_is_whitespace(c: char) -> (r: bool)
    ensures
        r == is_whitespace(c),
{
    ('\u{9}' <= c && c <= '\u{d}') || c == ' ' || c == '\u{85}' || c == '\u{a0}' || c
        == '\u{1680}' || ('\u{2000}' <= c && c <= '\u{200a}') || c == '\u{2028}' || c
        == '\u{2029}' || c == '\u{202f}' || c == '\u{205f}' || c == '\u{3000}'
}

/// `str::trim_end`: trailing whitespace removed.
pub open spec fn trim_end(s: Seq<char>) -> Seq<char>
    decreases s.len(),
{
    if s.len() > 0 && is_whitespace(s.last()) {
        trim_end(s.drop_last())
    } else {
        s
    }
}

/// `str::trim_start`: leading whitespace removed.
pub open spec fn trim_start(s: Seq<char>) -> Seq<char>
    decreases s.len(),
{
    if s.len() > 0 && is_whitespace(s[0]) {
        trim_start(s.drop_first())
    } else {
        s
    }
}

/// `str::trim`: leading and trailing whitespace removed.
pub open spec fn trim(s: Seq<char>) -> Seq<char> {
    trim_start(trim_end(s))
}

/// `str::trim_end`, on characters.
pub fn trim_end_chars(s: &[char]) -> (r: Vec<char>)
    ensures
        r@ == trim_end(s@),
{
    let mut end = s.len();
    assert(s@.subrange(0, s@.len() as int) =~= s@);
    while end > 0 && char_is_whitespace(s[end - 1])
        invariant
            end <= s@.len(),
            trim_end(s@.subrange(0, end as int)) == trim_end(s@),
        decreases end,
    {
        assert(s@.subrange(0, end as int).drop_last() =~= s@.subrange(0, end - 1));
        end -= 1;
    }
    assert(s@.subrange(0, s@.len() as int) =~= s@);
    sub_chars(s, 0, end)
}

/// `str::trim`, on characters.
pub fn trim_chars(s: &[char]) -> (r: Vec<char>)
    ensures
        r@ == trim(s@),
{
    let t = trim_end_chars(s);
    let mut start: usize = 0;
    assert(t@.skip(0) =~= t@);
    while start < t.len() && char_is_whitespace(t[start])
        invariant
            start <= t@.len(),
            trim_start(t@.skip(start as int)) == trim_start(t@),
        decreases t@.len() - start,
    {
        assert(t@.skip(start as int).drop_first() =~= t@.skip(start + 1));
        start += 1;
    }
    assert(t@.skip(0) =~= t@);
    let r = sub_chars(t.as_slice(), start, t.len());
    assert(r@ =~= t@.skip(start as int));
    r
}

// ------------------------------------------------------------------
// Decimal numbers
// ------------------------------------------------------------------

/// The character of a decimal digit.
pub open spec fn digit_char(d: nat) -> char {
    ((48 + d) as u8) as char
}

/// Whether `c` is an ASCII decimal digit.
pub open spec fn is_digit(c: char) -> bool {
    '0' <= c <= '9'
}

/// The value of an ASCII decimal digit.
pub open spec fn digit_value(c: char) -> nat {
    ((c as u32) - 48) as nat
}

/// The decimal representation of `n`, without sign or leading zeros
/// (what `to_string` gives for an unsigned integer).
pub open spec fn decimal(n: nat) -> Seq<char>
    decreases n,
{
    if n < 10 {
        seq![digit_char(n)]
    } else {
        decimal(n / 10).push(digit_char(n % 10))
    }
}

/// The decimal digits of `n`, as characters.
pub fn decimal_chars(n: u64) -> (r: Vec<char>)
    ensures
        r@ == decimal(n as nat),
    decreases n,
{
    let d = (n % 10) as u8;
    let c = (48u8 + d) as char;
    if n < 10 {
        let r = vec![c];
        assert(r@ =~= decimal(n as nat));
        r
    } else {
        let mut r = decimal_chars(n / 10);
        r.push(c);
        r
    }
}

/// The value of a string of decimal digits.
pub open spec fn digits_value(s: Seq<char>) -> nat
    decreases s.len(),
{
    if s.len() == 0 {
        0
    } else {
        digits_value(s.drop_last()) * 10 + digit_value(s.last())
    }
}

/// The digits part of an unsigned number: without one leading `'+'`, if
/// anything follows it.
pub open spec fn unsigned_body(s: Seq<char>) -> Seq<char> {
    if s.len() > 1 && s[0] == '+' {
        s.skip(1)
    } else {
        s
    }
}

/// Every character of `s` is a decimal digit.
pub open spec fn all_digits(s: Seq<char>) -> bool {
    forall|i: int| 0 <= i < s.len() ==> is_digit(#[trigger] s[i])
}

/// What `str::parse` gives for an unsigned integer type whose largest value
/// is `max`: an optional `'+'`, then at least one decimal digit and nothing
/// else, with a value no larger than `max`.
pub open spec fn parse_unsigned(s: Seq<char>, max: nat) -> Option<nat> {
    let body = unsigned_body(s);
    if body.len() == 0 || !all_digits(body) || digits_value(body) > max {
        None
    } else {
        Some(digits_value(body))
    }
}

/// A number's leading digits are worth no more than all of it.
pub proof fn lemma_digits_value_prefix(s: Seq<char>, k: int)
    requires
        0 <= k <= s.len(),
    ensures
        digits_value(s.take(k)) <= digits_value(s),
    decreases s.len(),
{
    if k < s.len() {
        assert(s.drop_last().take(k) =~= s.take(k));
        lemma_digits_value_prefix(s.drop_last(), k);
    } else {
        assert(s.take(k) =~= s);
    }
}

/// `str::parse` for an unsigned integer no larger than `max`.
pub fn parse_unsigned_chars(s: &[char], max: u64) -> (r: Option<u64>)
    requires
        max >= 9,
    ensures
        match r {
            Some(v) => parse_unsigned(s@, max as nat) == Some(v as nat),
            None => parse_unsigned(s@, max as nat) is None,
        },
{
    let start: usize = if s.len() > 1 && s[0] == '+' {
        1
    } else {
        0
    };
    let ghost body = unsigned_body(s@);
    assert(body =~= s@.skip(start as int));
    if start == s.len() {
        return None;
    }
    let mut value: u64 = 0;
    let mut i = start;
    while i < s.len()
        invariant
            start <= i <= s@.len(),
            body == s@.skip(start as int),
            forall|j: int| start <= j < i ==> is_digit(#[trigger] s@[j]),
            value as nat == digits_value(s@.subrange(start as int, i as int)),
            value <= max,
            max >= 9,
            body.len() > 0,
            body == unsigned_body(s@),
        decreases s@.len() - i,
    {
        let c = s[i];
        if !('0' <= c && c <= '9') {
            assert(!is_digit(body[i - start]));
            assert(parse_unsigned(s@, max as nat) is None);
            return None;
        }
        let d = (c as u32 - 48) as u64;
        assert(s@.subrange(start as int, i + 1).drop_last() =~= s@.subrange(start as int, i as int));
        assert(digits_value(s@.subrange(start as int, i + 1)) == value * 10 + d);
        if value > (max - d) / 10 {
            proof {
                assert(value * 10 + d > max) by (nonlinear_arith)
                    requires
                        value > (max - d) / 10,
                        d <= 9,
                        max >= 9,
                ;
                let k = (i - start) + 1;
                assert(body.take(k) =~= s@.subrange(start as int, i + 1));
                if all_digits(body) {
                    lemma_digits_value_prefix(body, k);
                }
            }
            return None;
        }
        assert(value * 10 + d <= max) by (nonlinear_arith)
            requires
                value <= (max - d) / 10,
                d <= 9,
        ;
        value = value * 10 + d;
        i += 1;
    }
    assert(s@.subrange(start as int, s@.len() as int) =~= body);
    Some(value)
}

// ------------------------------------------------------------------
// Paths
// ------------------------------------------------------------------

/// `Path::join` on a Unix system: an absolute `name` replaces `base`;
/// otherwise `name` follows `base`, with a `'/'` between them unless `base`
/// is empty or already ends with one.
pub open spec fn join_path(base: Seq<char>, name: Seq<char>) -> Seq<char> {
    if name.len() > 0 && name[0] == '/' {
        name
    } else if base.len() == 0 || base.last() == '/' {
        base + name
    } else {
        base + seq!['/'] + name
    }
}

/// `Path::join`, on characters.
pub fn join_path_chars(base: &[char], name: &[char]) -> (r: Vec<char>)
    ensures
        r@ == join_path(base@, name@),
{
    if name.len() > 0 && name[0] == '/' {
        return sub_chars(name, 0, name.len());
    }
    let mut out = sub_chars(base, 0, base.len());
    if !(base.len() == 0 || base[base.len() - 1] == '/') {
        out.push('/');
    }
    let mut k: usize = 0;
    let ghost before = out@;
    while k < name.len()
        invariant
            k <= name@.len(),
            out@ == before + name@.take(k as int),
        decreases name@.len() - k,
    {
        out.push(name[k]);
        k += 1;
        assert(out@ =~= before + name@.take(k as int));
    }
    assert(name@.take(k as int) =~= name@);
    assert(base@.subrange(0, base@.len() as int) =~= base@);
    assert(name@.subrange(0, name@.len() as int) =~= name@);
    out
}

/// Splitting always yields at least one piece.
pub proof fn lemma_split_nonempty(s: Seq<char>, p: Seq<char>)
    requires
        p.len() > 0,
    ensures
        split(s, p).len() >= 1,
{
    lemma_find_from_bounds(s, p, 0);
}

/// Pieces joined with a separator between each two (what folding them with
/// `a + sep + b` gives); nothing for no pieces.
pub open spec fn join_with(parts: Seq<Seq<char>>, sep: Seq<char>) -> Seq<char>
    decreases parts.len(),
{
    if parts.len() == 0 {
        seq![]
    } else if parts.len() == 1 {
        parts[0]
    } else {
        join_with(parts.drop_last(), sep) + sep + parts.last()
    }
}

// ------------------------------------------------------------------
// Facts about lines
// ------------------------------------------------------------------

/// `s` holds no line break.
pub open spec fn no_newline(s: Seq<char>) -> bool {
    forall|i: int| 0 <= i < s.len() ==> s[i] != '\n'
}

/// Searching past a prefix finds what searching the rest finds, shifted.
pub proof fn lemma_find_from_shift(x: Seq<char>, y: Seq<char>, p: Seq<char>, i: int)
    requires
        0 <= i,
    ensures
        find_from(x + y, p, x.len() + i) == match find_from(y, p, i) {
            Some(k) => Some(k + x.len()),
            None => None,
        },
    decreases y.len() + 1 - i,
{
    let s = x + y;
    let j = x.len() + i;
    if j + p.len() > s.len() {
    } else {
        assert(s.subrange(j, j + p.len()) =~= y.subrange(i, i + p.len()));
        if matches_at(y, p, i) {
        } else {
            lemma_find_from_shift(x, y, p, i + 1);
        }
    }
}

/// The lines after a prefix are the lines of the rest.
pub proof fn lemma_lines_from_shift(x: Seq<char>, y: Seq<char>, i: int)
    requires
        0 <= i,
    ensures
        lines_from(x + y, x.len() + i) == lines_from(y, i),
    decreases y.len() - i,
{
    let s = x + y;
    let j = x.len() + i;
    if i >= y.len() {
    } else {
        lemma_find_from_shift(x, y, seq!['\n'], i);
        lemma_find_from_bounds(y, seq!['\n'], i);
        match find_from(y, seq!['\n'], i) {
            None => {
                assert(s.subrange(j, s.len() as int) =~= y.subrange(i, y.len() as int));
            },
            Some(k) => {
                assert(s.subrange(j, k + x.len()) =~= y.subrange(i, k));
                lemma_lines_from_shift(x, y, k + 1);
            },
        }
    }
}

/// Text without a line break, that does not end in a carriage return, is
/// one line (or none, when empty).
pub proof fn lemma_lines_single(a: Seq<char>)
    requires
        no_newline(a),
    ensures
        lines(a) == (if a.len() == 0 {
            Seq::<Seq<char>>::empty()
        } else {
            seq![a]
        }),
{
    if a.len() > 0 {
        lemma_find_from_bounds(a, seq!['\n'], 0);
        match find_from(a, seq!['\n'], 0) {
            Some(k) => {
                assert(a.subrange(k, k + 1)[0] == '\n');
                assert(false);
            },
            None => {
                assert(a.subrange(0, a.len() as int) =~= a);
            },
        }
    }
}

/// A first line without a line break, then `'\n'`, then the rest.
pub proof fn lemma_lines_cons(a: Seq<char>, rest: Seq<char>)
    requires
        no_newline(a),
    ensures
        lines(a + seq!['\n'] + rest) == seq![strip_cr(a)] + lines(rest),
{
    let s = a + seq!['\n'] + rest;
    lemma_find_from_bounds(s, seq!['\n'], 0);
    assert(matches_at(s, seq!['\n'], a.len() as int)) by {
        assert(s.subrange(a.len() as int, a.len() + 1int) =~= seq!['\n']);
    }
    match find_from(s, seq!['\n'], 0) {
        Some(k) => {
            if k < a.len() {
                assert(s.subrange(k, k + 1)[0] == '\n');
                assert(s[k] == a[k]);
            }
            assert(k == a.len());
            assert(s.subrange(0, k) =~= a);
            lemma_lines_from_shift(a + seq!['\n'], rest, 0);
        },
        None => {},
    }
}

/// Splitting after a prefix splits the rest.
pub proof fn lemma_split_from_shift(x: Seq<char>, y: Seq<char>, p: Seq<char>, i: int)
    requires
        0 <= i <= y.len(),
        p.len() > 0,
    ensures
        split_from(x + y, p, x.len() + i) == split_from(y, p, i),
    decreases y.len() - i,
{
    let s = x + y;
    let j = x.len() + i;
    lemma_find_from_shift(x, y, p, i);
    lemma_find_from_bounds(y, p, i);
    match find_from(y, p, i) {
        None => {
            assert(s.subrange(j, s.len() as int) =~= y.subrange(i, y.len() as int));
        },
        Some(k) => {
            assert(s.subrange(j, k + x.len()) =~= y.subrange(i, k));
            lemma_split_from_shift(x, y, p, k + p.len());
        },
    }
}

/// No occurrence of `p` in `s` means one piece.
pub proof fn lemma_split_single(s: Seq<char>, p: Seq<char>)
    requires
        p.len() > 0,
        forall|i: int| 0 <= i ==> !matches_at(s, p, i),
    ensures
        split(s, p) == seq![s],
{
    lemma_find_from_bounds(s, p, 0);
    assert(s.subrange(0, s.len() as int) =~= s);
}

/// A first piece without `p`, then `p`, then the rest.
pub proof fn lemma_split_cons(a: Seq<char>, p: Seq<char>, rest: Seq<char>)
    requires
        p.len() > 0,
        forall|i: int| 0 <= i < a.len() ==> !matches_at(a + p + rest, p, i),
    ensures
        split(a + p + rest, p) == seq![a] + split(rest, p),
{
    let s = a + p + rest;
    lemma_find_from_bounds(s, p, 0);
    assert(matches_at(s, p, a.len() as int)) by {
        assert(s.subrange(a.len() as int, a.len() + p.len() as int) =~= p);
    }
    assert(find_from(s, p, 0) == Some(a.len() as int));
    assert(s.subrange(0, a.len() as int) =~= a);
    assert(s == (a + p) + rest);
    lemma_split_from_shift(a + p, rest, p, 0);
}

} // verus!

verus! {

/// Removing the leading copies of `p` from `p + s` leaves `s` when `s` does
/// not itself begin with `p`.
pub proof fn lemma_trim_prefix(p: Seq<char>, s: Seq<char>)
    requires
        p.len() > 0,
        !starts_with(s, p),
    ensures
        starts_with(p + s, p),
        trim_start_matches(p + s, p) == s,
{
    let t = p + s;
    assert(t.subrange(0, p.len() as int) =~= p);
    assert(t.skip(p.len() as int) =~= s);
    assert(trim_start_matches(s, p) == s);
}

/// Text whose first character differs from that of `p` neither is `p` nor
/// begins with it.
pub proof fn lemma_first_char_differs(s: Seq<char>, p: Seq<char>)
    requires
        s.len() > 0,
        p.len() > 0,
        s[0] != p[0],
    ensures
        !starts_with(s, p),
        s != p,
{
    if starts_with(s, p) {
        assert(s.subrange(0, p.len() as int)[0] == s[0]);
    }
}

} // verus!

verus! {

/// Text that differs from `p` at a position both have neither is `p` nor
/// begins with it.
pub proof fn lemma_char_differs(s: Seq<char>, p: Seq<char>, k: int)
    requires
        0 <= k < s.len(),
        k < p.len(),
        s[k] != p[k],
    ensures
        !starts_with(s, p),
        s != p,
{
    if starts_with(s, p) {
        assert(s.subrange(0, p.len() as int)[k] == s[k]);
    }
}

proof fn lemma_digit_char(d: nat)
    requires
        d < 10,
    ensures
        is_digit(digit_char(d)),
        digit_value(digit_char(d)) == d,
{
    let b: u8 = (48 + d) as u8;
    assert(b == 48 + d);
    assert((b as char) as u32 == b as u32);
}

/// The decimal text of a number is all digits, starts with no sign, and
/// reads back as the number.
pub proof fn lemma_decimal_parse(n: nat)
    ensures
        decimal(n).len() > 0,
        all_digits(decimal(n)),
        unsigned_body(decimal(n)) == decimal(n),
        digits_value(decimal(n)) == n,
    decreases n,
{
    let d = decimal(n);
    if n < 10 {
        lemma_digit_char(n);
        assert(d.drop_last() =~= Seq::<char>::empty());
        assert(digits_value(d) == digits_value(d.drop_last()) * 10 + digit_value(d.last()));
    } else {
        lemma_decimal_parse(n / 10);
        lemma_digit_char(n % 10);
        assert(d.drop_last() =~= decimal(n / 10));
        assert(d.last() == digit_char(n % 10));
        assert(digits_value(d) == digits_value(decimal(n / 10)) * 10 + digit_value(d.last()));
        assert((n / 10) * 10 + n % 10 == n) by (nonlinear_arith);
        assert forall|i: int| 0 <= i < d.len() implies is_digit(#[trigger] d[i]) by {
            if i < d.len() - 1 {
                assert(d[i] == decimal(n / 10)[i]);
            }
        }
    }
    assert(is_digit(d[0]));
}

/// `parse` reads back the decimal text of any number up to the type's
/// largest value.
pub proof fn lemma_parse_decimal(n: nat, max: nat)
    requires
        n <= max,
    ensures
        parse_unsigned(decimal(n), max) == Some(n),
{
    lemma_decimal_parse(n);
}

} // verus!

verus! {

/// `c` does not occur in `s`.
pub open spec fn lacks(s: Seq<char>, c: char) -> bool {
    forall|i: int| 0 <= i < s.len() ==> s[i] != c
}

/// `p` occurs nowhere in `s`.
pub open spec fn free_of(s: Seq<char>, p: Seq<char>) -> bool {
    forall|i: int| !#[trigger] matches_at(s, p, i)
}

/// A join is the first piece, the separator, and the join of the rest.
pub proof fn lemma_join_with_front(parts: Seq<Seq<char>>, sep: Seq<char>)
    requires
        parts.len() >= 2,
    ensures
        join_with(parts, sep) == parts[0] + sep + join_with(parts.skip(1), sep),
    decreases parts.len(),
{
    let rest = parts.skip(1);
    if parts.len() == 2 {
        assert(parts.drop_last() =~= seq![parts[0]]);
        assert(rest =~= seq![parts[1]]);
        assert(join_with(parts.drop_last(), sep) == parts[0]);
        assert(join_with(rest, sep) == parts[1]);
        assert(parts.last() == parts[1]);
    } else {
        lemma_join_with_front(parts.drop_last(), sep);
        assert(parts.drop_last().skip(1) =~= rest.drop_last());
        assert(rest.last() == parts.last());
        assert(join_with(rest, sep) == join_with(rest.drop_last(), sep) + sep + rest.last());
        assert(join_with(parts, sep) =~= parts[0] + sep + join_with(rest, sep));
    }
}

/// Pieces without `c`, joined by a separator without `c`, hold no `c`.
pub proof fn lemma_join_with_lacks(parts: Seq<Seq<char>>, sep: Seq<char>, c: char)
    requires
        forall|k: int| 0 <= k < parts.len() ==> lacks(#[trigger] parts[k], c),
        lacks(sep, c),
    ensures
        lacks(join_with(parts, sep), c),
    decreases parts.len(),
{
    if parts.len() >= 2 {
        let dl = parts.drop_last();
        assert forall|k: int| 0 <= k < dl.len() implies lacks(#[trigger] dl[k], c) by {
            assert(dl[k] == parts[k]);
        }
        lemma_join_with_lacks(dl, sep, c);
        let j = join_with(dl, sep);
        let l = parts.last();
        assert(lacks(l, c));
        assert forall|i: int| 0 <= i < (j + sep + l).len() implies (j + sep + l)[i] != c by {
            if i < j.len() {
            } else if i < j.len() + sep.len() {
                assert((j + sep + l)[i] == sep[i - j.len()]);
            } else {
                assert((j + sep + l)[i] == l[i - j.len() - sep.len()]);
            }
        }
    } else if parts.len() == 1 {
        assert(lacks(parts[0], c));
    }
}

/// Splitting a join at its separator gives back the pieces, where the
/// separator is one character repeated, and every piece is free of the
/// separator and does not end with that character.
pub proof fn lemma_split_join(parts: Seq<Seq<char>>, p: Seq<char>, c: char)
    requires
        parts.len() >= 1,
        p.len() > 0,
        forall|k: int| 0 <= k < p.len() ==> p[k] == c,
        forall|k: int|
            0 <= k < parts.len() ==> (#[trigger] parts[k]).len() > 0 && parts[k].last() != c
                && free_of(parts[k], p),
    ensures
        split(join_with(parts, p), p) == parts,
    decreases parts.len(),
{
    let a = parts[0];
    assert(a.len() > 0 && a.last() != c && free_of(a, p));
    if parts.len() == 1 {
        assert forall|i: int| 0 <= i implies !matches_at(a, p, i) by {
            assert(!matches_at(a, p, i));
        }
        lemma_split_single(a, p);
    } else {
        let rest = parts.skip(1);
        assert forall|k: int| 0 <= k < rest.len() implies (#[trigger] rest[k]).len() > 0
            && rest[k].last() != c && free_of(rest[k], p) by {
            assert(rest[k] == parts[k + 1]);
        }
        lemma_join_with_front(parts, p);
        let t = join_with(rest, p);
        let s = a + p + t;
        assert forall|i: int| 0 <= i < a.len() implies !matches_at(s, p, i) by {
            if matches_at(s, p, i) {
                if i + p.len() <= a.len() {
                    assert(a.subrange(i, i + p.len()) =~= s.subrange(i, i + p.len()));
                    assert(matches_at(a, p, i));
                } else {
                    let k = a.len() - 1 - i;
                    assert(s.subrange(i, i + p.len())[k] == s[a.len() - 1]);
                    assert(s[a.len() - 1] == a.last());
                    assert(p[k] == c);
                }
            }
        }
        lemma_split_cons(a, p, t);
        lemma_split_join(rest, p, c);
        assert(seq![a] + rest =~= parts);
    }
}

} // verus!

verus! {

/// Whether `s` ends with `p`.
pub open spec fn ends_with(s: Seq<char>, p: Seq<char>) -> bool {
    p.len() <= s.len() && s.subrange(s.len() - p.len(), s.len() as int) == p
}

/// `str::trim_end_matches` with a string pattern: every trailing copy of
/// `p` removed.
pub open spec fn trim_end_matches(s: Seq<char>, p: Seq<char>) -> Seq<char>
    decreases s.len(),
{
    if p.len() > 0 && ends_with(s, p) {
        trim_end_matches(s.subrange(0, s.len() - p.len()), p)
    } else {
        s
    }
}

/// `str::trim_end_matches` with a string pattern, on characters.
pub fn trim_end_matches_chars(s: &[char], p: &[char]) -> (r: Vec<char>)
    ensures
        r@ == trim_end_matches(s@, p@),
{
    let mut end = s.len();
    assert(s@.subrange(0, s@.len() as int) =~= s@);
    if p.len() > 0 {
        loop
            invariant
                p@.len() > 0,
                end <= s@.len(),
                trim_end_matches(s@.subrange(0, end as int), p@) == trim_end_matches(s@, p@),
            ensures
                end <= s@.len(),
                trim_end_matches(s@.subrange(0, end as int), p@) == trim_end_matches(s@, p@),
                !ends_with(s@.subrange(0, end as int), p@),
            decreases end,
        {
            let ghost sub = s@.subrange(0, end as int);
            if end < p.len() {
                break;
            }
            if !chars_match_at(s, p, end - p.len()) {
                assert(!ends_with(sub, p@)) by {
                    if ends_with(sub, p@) {
                        assert(sub.subrange(sub.len() - p@.len(), sub.len() as int) =~= s@.subrange(
                            end - p@.len(),
                            end as int,
                        ));
                    }
                }
                break;
            }
            assert(ends_with(sub, p@)) by {
                assert(sub.subrange(sub.len() - p@.len(), sub.len() as int) =~= s@.subrange(
                    end - p@.len(),
                    end as int,
                ));
            }
            assert(sub.subrange(0, sub.len() - p@.len()) =~= s@.subrange(0, end - p@.len()));
            end = end - p.len();
        }
    }
    sub_chars(s, 0, end)
}

} // verus!

verus! {

/// Different numbers have different decimal texts, so a text made of a
/// number's decimal form followed by the same suffix tells the number.
pub proof fn lemma_decimal_prefix_distinct(i: nat, j: nat, suffix: Seq<char>)
    requires
        i != j,
    ensures
        decimal(i) + suffix != decimal(j) + suffix,
{
    if decimal(i) + suffix == decimal(j) + suffix {
        assert((decimal(i) + suffix).len() == decimal(i).len() + suffix.len());
        assert((decimal(j) + suffix).len() == decimal(j).len() + suffix.len());
        assert(decimal(i).len() == decimal(j).len());
        assert(decimal(i) =~= (decimal(i) + suffix).subrange(0, decimal(i).len() as int));
        assert(decimal(j) =~= (decimal(j) + suffix).subrange(0, decimal(j).len() as int));
        lemma_decimal_parse(i);
        lemma_decimal_parse(j);
    }
}

} // verus!
