use vstd::prelude::*;
use vstd::string::StringExecFns;
use vstd::utf8::encode_utf8;
use crate::block::{hex_upper, sha512, Block512};
use crate::smsg::{chunk_blocks, cypher_view, hex_one_line_of, hex_string_of, zero_block, SMsg, SMsgView};
use crate::text::{append_chars, chars_of, join_path, join_path_chars, string_from_chars};

verus! {

/// Why a username is refused.
#[derive(Debug, PartialEq, Eq)]
pub enum UsernameError {
    Empty,
    TooLong,
}

impl UsernameError {
    /// The message shown for this problem.
    pub fn message(&self) -> (r: String)
        ensures
            r@ == (match self {
                UsernameError::Empty => "Username cannot be empty!"@,
                UsernameError::TooLong => "Username too long!"@,
            }),
    {
        match self {
            UsernameError::Empty => String::from_str("Username cannot be empty!"),
            UsernameError::TooLong => String::from_str("Username too long!"),
        }
    }
}

/// The problem with a username, if any: it must be non-empty and at most 64
/// bytes long.
pub open spec fn username_error(username: Seq<char>) -> Option<UsernameError> {
    if username.len() == 0 {
        Some(UsernameError::Empty)
    } else if encode_utf8(username).len() > 64 {
        Some(UsernameError::TooLong)
    } else {
        None
    }
}

/// The message that `SMsg::new` makes of a text.
pub open spec fn text_message(username: Seq<char>) -> SMsgView {
    SMsgView { check: zero_block(), data: chunk_blocks(encode_utf8(username)) }
}

/// A user's hash: the name encrypted with the password hash, as one line of
/// hexadecimal.
pub open spec fn user_hash(username: Seq<char>, password_hash: Seq<char>) -> Seq<char> {
    hex_one_line_of(cypher_view(text_message(username), password_hash))
}

#[derive(Debug)]
pub struct UserInfo {
    username: String,
    password_hash: String,
}

impl UserInfo {
    /// The user's name.
    pub closed spec fn spec_username(&self) -> Seq<char> {
        self.username@
    }

    /// The upper-case hexadecimal SHA-512 hash of the user's password.
    pub closed spec fn spec_password_hash(&self) -> Seq<char> {
        self.password_hash@
    }

    /// Makes the user from a name and a password, keeping only the hash of
    /// the password; refuses an empty name or one longer than 64 bytes.
    pub fn new(username: String, password: &str) -> (r: Result<UserInfo, UsernameError>)
        ensures
            match r {
                Ok(u) => username_error(username@) is None && u.spec_username() == username@
                    && u.spec_password_hash() == hex_upper(sha512(encode_utf8(password@))),
                Err(e) => username_error(username@) == Some(e),
            },
    {
        if username.as_str().is_empty() {
            return Err(UsernameError::Empty);
        }
        if username.as_str().as_bytes().len() > 64 {
            return Err(UsernameError::TooLong);
        }
        let password_hash = Block512::get_hash_string(password);
        Ok(UserInfo { username, password_hash })
    }

    /// The user's name.
    pub fn username(&self) -> (r: &String)
        ensures
            r@ == self.spec_username(),
    {
        &self.username
    }

    pub fn hash(&self) -> (r: String)
        ensures
            r@ == user_hash(self.spec_username(), self.spec_password_hash()),
    {
        let mut msg = SMsg::new::<String>(&self.username);
        msg.encrypt(self.password_hash.as_str());
        return msg.to_hex_string_one_line();
    }

    /// The user's directory: the user's hash under `base`.
    pub fn user_path(&self, base: &str) -> (r: String)
        ensures
            r@ == join_path(base@, user_hash(self.spec_username(), self.spec_password_hash())),
    {
        let b = chars_of(base);
        let h = self.hash();
        let hc = chars_of(h.as_str());
        let p = join_path_chars(b.as_slice(), hc.as_slice());
        string_from_chars(p.as_slice())
    }

    /// The user as text: the name, and the name encrypted with the password
    /// hash in hexadecimal lines.
    pub fn to_string(&self) -> (r: String)
        ensures
            r@ == "Name: "@ + self.spec_username() + "\nHash: "@ + hex_string_of(
                cypher_view(text_message(self.spec_username()), self.spec_password_hash()),
            ),
    {
        let mut msg = SMsg::new::<String>(&self.username);
        msg.encrypt(self.password_hash.as_str());
        let mut out = chars_of("Name: ");
        let name = chars_of(self.username.as_str());
        append_chars(&mut out, name.as_slice());
        let mid = chars_of("\nHash: ");
        append_chars(&mut out, mid.as_slice());
        let h = msg.to_hex_string();
        let hc = chars_of(h.as_str());
        append_chars(&mut out, hc.as_slice());
        string_from_chars(out.as_slice())
    }
}

} // verus!
