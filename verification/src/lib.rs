use vstd::prelude::*;
use crate::smsg::{cypher_view, hex_string_of, SMsg};
use crate::text::{all_ascii, ascii_lower, lowercase, str_equal, to_lowercase};
use crate::user_info::text_message;

pub mod text;
pub mod block;
pub mod bytes;
pub mod smsg;
pub mod user_info;
pub mod timestamp;
pub mod entry;
pub mod entry_file;
pub mod connect;
pub mod data_structures;
pub mod edit;
pub mod random;

verus! {

/// The answer that a lower-cased reply gives: `Some(true)` for "y" or
/// nothing, `Some(false)` for "n", `None` for anything else (the question is
/// then asked again).
pub open spec fn answer_of(lowered: Seq<char>) -> Option<bool> {
    if lowered == "y"@ || lowered == ""@ {
        Some(true)
    } else if lowered == "n"@ {
        Some(false)
    } else {
        None
    }
}

/// The answer to a yes/no question: the reply in lower case, read as
/// `answer_of` reads it.
pub open spec fn confirm_answer(answer: Seq<char>) -> Option<bool> {
    answer_of(lowercase(answer))
}

/// Decides a yes/no answer read after `message` and " [Y/n]". For an ASCII
/// reply the lower case is plain: `A` to `Z` become `a` to `z`.
pub fn confirm_message(answer: &str) -> (r: Option<bool>)
    ensures
        r == confirm_answer(answer@),
        all_ascii(answer@) ==> r == answer_of(answer@.map_values(|c: char| ascii_lower(c))),
{
    let lower = to_lowercase(answer);
    if str_equal(lower.as_str(), "y") || str_equal(lower.as_str(), "") {
        Some(true)
    } else if str_equal(lower.as_str(), "n") {
        Some(false)
    } else {
        None
    }
}

/// Encrypts the given message by the password parameter
///
/// Returns the encryption as hex string
pub fn encrypt_message_with_password(message: String, password: String) -> (r: String)
    ensures
        r@ == hex_string_of(cypher_view(text_message(message@), password@)),
{
    let mut msg = SMsg::new::<String>(&message);
    msg.encrypt(password.as_str());
    msg.to_hex_string()
}

/// Reading a value back from its text form.
pub trait FromString: Sized {
    /// Whether `from_string` can read this text (it panics otherwise).
    spec fn readable(text: Seq<char>) -> bool;

    /// Whether `v` is what `from_string` reads from readable text.
    spec fn read_as(text: Seq<char>, v: Self) -> bool;

    fn from_string(string: &str) -> (r: Self)
        requires
            Self::readable(string@),
        ensures
            Self::read_as(string@, r),
    ;
}

} // verus!
