use vstd::prelude::*;
use rand::distributions::Alphanumeric;
use rand::Rng;
use crate::text::{join_with, string_from_chars};

verus! {

/// Calls `Rng::gen_range` on the thread's generator with `lo..=hi`.
/// Claimed: the value lies in the range (`gen_range` panics only on an empty
/// range, which `requires` excludes); which value comes is left to chance.
#[verifier::external_body]
fn random_u8(lo: u8, hi: u8) -> (r: u8)
    requires
        lo <= hi,
    ensures
        lo <= r <= hi,
{
    rand::thread_rng().gen_range(lo..=hi)
}

/// Samples `Alphanumeric` from the thread's generator. Claimed: the
/// character is an ASCII letter or digit (the distribution's documentation:
/// "uniformly distributed over ASCII letters and numbers").
#[verifier::external_body]
fn random_alphanumeric() -> (c: char)
    ensures
        is_alphanumeric(c),
{
    char::from(rand::thread_rng().sample(Alphanumeric))
}

/// An ASCII letter or digit.
pub open spec fn is_alphanumeric(c: char) -> bool {
    ('0' <= c <= '9') || ('a' <= c <= 'z') || ('A' <= c <= 'Z')
}

/// A printable ASCII character that is neither a letter, a digit nor a
/// space.
pub open spec fn is_special(c: char) -> bool {
    ('\u{21}' <= c <= '\u{2f}') || ('\u{3a}' <= c <= '\u{40}') || ('\u{5b}' <= c <= '\u{60}')
        || ('\u{7b}' <= c <= '\u{7e}')
}

/// A printable ASCII character other than space (33 to 126).
pub open spec fn is_printable(c: char) -> bool {
    '\u{21}' <= c <= '\u{7e}'
}

/// The `k`-th special character, in ASCII order.
pub open spec fn special_char(k: u8) -> char {
    if k < 15 {
        ((33 + k) as u8) as char
    } else if k < 22 {
        ((58 + k - 15) as u8) as char
    } else if k < 28 {
        ((91 + k - 22) as u8) as char
    } else {
        ((123 + k - 28) as u8) as char
    }
}

/// The `k`-th special character, in ASCII order.
pub fn special_char_at(k: u8) -> (c: char)
    requires
        k < 32,
    ensures
        c == special_char(k),
        is_special(c),
{
    if k < 15 {
        (33 + k) as char
    } else if k < 22 {
        (58 + k - 15) as char
    } else if k < 28 {
        (91 + k - 22) as char
    } else {
        (123 + k - 28) as char
    }
}

/// A random special character, each of the 32 equally likely: the special
/// character at a position drawn from 0 to 31.
pub fn random_special_char() -> (c: char)
    ensures
        is_special(c),
        exists|k: u8| k < 32 && c == special_char(k),
{
    let k = random_u8(0, 31);
    special_char_at(k)
}

/// Text made of runs of 4 to 7 letters or digits, joined by `sep`, that
/// stops as soon as it is `length` characters long: either with its last
/// run, or with a `sep` after it that makes exactly `length`. Each run is
/// added only while the text is still shorter than `length`.
pub open spec fn memorable(s: Seq<char>, sep: char, length: nat) -> bool {
    exists|runs: Seq<Seq<char>>| #[trigger] memorable_runs(s, sep, length, runs)
}

/// The text before the last run: the other runs, each followed by `sep`.
pub open spec fn before_last_run(runs: Seq<Seq<char>>, sep: char) -> Seq<char> {
    if runs.len() <= 1 {
        seq![]
    } else {
        join_with(runs.drop_last(), seq![sep]) + seq![sep]
    }
}

/// `s` is made of `runs` as `memorable` describes.
pub open spec fn memorable_runs(s: Seq<char>, sep: char, length: nat, runs: Seq<Seq<char>>) -> bool {
    &&& forall|i: int| 0 <= i < runs.len() ==> valid_run(#[trigger] runs[i])
    &&& (length == 0 ==> runs.len() == 0 && s.len() == 0)
    &&& (length > 0 ==> {
        &&& runs.len() > 0
        &&& before_last_run(runs, sep).len() < length
        &&& ((s == join_with(runs, seq![sep]) && s.len() >= length) || (s == join_with(
            runs,
            seq![sep],
        ) + seq![sep] && s.len() == length))
    })
}

/// A run of 4 to 7 letters or digits.
pub open spec fn valid_run(r: Seq<char>) -> bool {
    &&& 4 <= r.len() <= 7
    &&& forall|j: int| 0 <= j < r.len() ==> is_alphanumeric(#[trigger] r[j])
}

/// Creates a random string by generating small(4-7) random alphanumeric substrings
/// and joins them with a seperator character until the desired length is met
pub fn memorable_string(length: usize) -> (r: String)
    ensures
        exists|sep: char| is_special(sep) && memorable(r@, sep, length as nat),
        length == 0 ==> r@.len() == 0,
        length > 0 ==> length <= r@.len() <= length + 6,
{
    let mut string: Vec<char> = Vec::new();
    let seperator = random_special_char();
    let ghost mut runs: Seq<Seq<char>> = seq![];
    while string.len() < length
        invariant
            string@.len() < length + 8,
            runs.len() == 0 ==> string@.len() == 0,
            runs.len() > 0 ==> (string@ == join_with(runs, seq![seperator]) + seq![seperator]
                && join_with(runs, seq![seperator]).len() < length) || (string@ == join_with(
                runs,
                seq![seperator],
            ) && string@.len() >= length),
            runs.len() > 0 ==> before_last_run(runs, seperator).len() < length,
            forall|i: int| 0 <= i < runs.len() ==> valid_run(#[trigger] runs[i]),
        decreases length + 8 - string@.len(),
    {
        // Add short string
        let random = random_u8(4, 7);
        let mut segment: Vec<char> = Vec::new();
        let mut k: u8 = 0;
        while k < random
            invariant
                k <= random <= 7,
                segment@.len() == k,
                forall|j: int| 0 <= j < k ==> is_alphanumeric(#[trigger] segment@[j]),
            decreases random - k,
        {
            segment.push(random_alphanumeric());
            k += 1;
        }
        let ghost before = string@;
        let mut j: usize = 0;
        while j < segment.len()
            invariant
                j <= segment@.len(),
                string@ == before + segment@.take(j as int),
            decreases segment@.len() - j,
        {
            string.push(segment[j]);
            j += 1;
            assert(string@ =~= before + segment@.take(j as int));
        }
        assert(segment@.take(j as int) =~= segment@);
        proof {
            let new_runs = runs.push(segment@);
            assert(new_runs.drop_last() =~= runs);
            assert(before_last_run(new_runs, seperator).len() < length) by {
                if runs.len() > 0 {
                    assert(before_last_run(new_runs, seperator) =~= before);
                }
            }
            if runs.len() == 0 {
                assert(before =~= Seq::<char>::empty());
                assert(join_with(new_runs, seq![seperator]) =~= segment@);
                assert(join_with(runs, seq![seperator]) =~= Seq::<char>::empty());
            }
            assert(string@ =~= join_with(new_runs, seq![seperator]));
            runs = new_runs;
        }
        // Add seperator
        if string.len() < length {
            string.push(seperator);
        }
    }
    proof {
        assert(memorable_runs(string@, seperator, length as nat, runs));
        if length > 0 {
            let last = runs.last();
            assert(valid_run(runs[runs.len() - 1]));
            if runs.len() > 1 {
                assert(join_with(runs, seq![seperator]) == join_with(runs.drop_last(), seq![seperator])
                    + seq![seperator] + last);
            } else {
                assert(join_with(runs, seq![seperator]) == runs[0]);
            }
            assert(join_with(runs, seq![seperator]).len() <= before_last_run(runs, seperator).len()
                + 7);
        }
    }
    string_from_chars(string.as_slice())
}

/// Generates 'length' number of random characters between ASCII values of 33 and 126 (inclusive)
pub fn generate_random_string(length: u32) -> (r: String)
    ensures
        r@.len() == length,
        forall|i: int| 0 <= i < r@.len() ==> is_printable(#[trigger] r@[i]),
{
    let mut string: Vec<char> = Vec::new();
    let mut i: u32 = 0;
    while i < length
        invariant
            i <= length,
            string@.len() == i,
            forall|j: int| 0 <= j < i ==> is_printable(#[trigger] string@[j]),
        decreases length - i,
    {
        let c = random_u8(33, 126) as char;
        string.push(c);
        i += 1;
    }
    string_from_chars(string.as_slice())
}

} // verus!
