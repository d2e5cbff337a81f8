// ------------------------------------------------------------------------------------------------
// Data structures
//

// Client Side

use vstd::prelude::*;
use vstd::string::StringExecFns;
use crate::text::{
    is_digit, lemma_char_differs, lemma_decimal_parse, lemma_parse_decimal, lemma_trim_prefix,
    append_chars, chars_of, chars_start_with, decimal, decimal_chars, parse_unsigned,
    parse_unsigned_chars, starts_with, str_equal, string_from_chars, trim_start_matches,
    trim_start_matches_chars,
};

pub mod client_data;
pub mod server;
pub mod storage_client;

verus! {

/// What a [Message] holds.
pub enum MessageView {
    Exit,
    Ack,
    List,
    Error(Seq<char>),
    Login(Seq<char>),
    Data(Seq<char>),
    Get(Seq<char>),
    Store(Seq<char>),
    Length(nat),
    Remove(Seq<char>),
}

/// [Message] used as an intermediary for [TcpStream] messages
pub enum Message {
    Exit,
    Ack,
    List,
    Error(String),
    Login(String),
    Data(String),
    Get(String),
    Store(String),
    Length(usize),
    Remove(String),
}

impl View for Message {
    type V = MessageView;

    open spec fn view(&self) -> MessageView {
        match self {
            Message::Exit => MessageView::Exit,
            Message::Ack => MessageView::Ack,
            Message::List => MessageView::List,
            Message::Error(s) => MessageView::Error(s@),
            Message::Login(s) => MessageView::Login(s@),
            Message::Data(s) => MessageView::Data(s@),
            Message::Get(s) => MessageView::Get(s@),
            Message::Store(s) => MessageView::Store(s@),
            Message::Length(n) => MessageView::Length(*n as nat),
            Message::Remove(s) => MessageView::Remove(s@),
        }
    }
}

/// The text after every leading copy of `prefix`.
pub open spec fn after_prefix(s: Seq<char>, prefix: Seq<char>) -> Seq<char> {
    trim_start_matches(s, prefix)
}

/// Text that `Message::new` reads without panicking: a length message
/// carries a number that fits a `usize`.
pub open spec fn message_readable(s: Seq<char>) -> bool {
    (s != "Exit"@ && s != "Ok"@ && s != "List"@ && starts_with(s, "Length "@)) ==> parse_unsigned(
        after_prefix(s, "Length "@),
        usize::MAX as nat,
    ) is Some
}

/// The message that readable text stands for.
pub open spec fn message_of_text(s: Seq<char>) -> MessageView {
    if s == "Exit"@ {
        MessageView::Exit
    } else if s == "Ok"@ {
        MessageView::Ack
    } else if s == "List"@ {
        MessageView::List
    } else if starts_with(s, "Error "@) {
        MessageView::Error(after_prefix(s, "Error "@))
    } else if starts_with(s, "Login "@) {
        MessageView::Login(after_prefix(s, "Login "@))
    } else if starts_with(s, "Data "@) {
        MessageView::Data(after_prefix(s, "Data "@))
    } else if starts_with(s, "Get "@) {
        MessageView::Get(after_prefix(s, "Get "@))
    } else if starts_with(s, "Set "@) {
        MessageView::Store(after_prefix(s, "Set "@))
    } else if starts_with(s, "Length "@) {
        MessageView::Length(parse_unsigned(after_prefix(s, "Length "@), usize::MAX as nat)->0)
    } else if starts_with(s, "Remove "@) {
        MessageView::Remove(after_prefix(s, "Remove "@))
    } else {
        MessageView::Error("Invalid Message"@)
    }
}

/// The text of a message.
pub open spec fn message_text(m: MessageView) -> Seq<char> {
    match m {
        MessageView::Exit => "Exit"@,
        MessageView::Ack => "Ok"@,
        MessageView::List => "List"@,
        MessageView::Error(s) => "Error "@ + s,
        MessageView::Login(s) => "Login "@ + s,
        MessageView::Data(s) => "Data "@ + s,
        MessageView::Get(s) => "Get "@ + s,
        MessageView::Store(s) => "Set "@ + s,
        MessageView::Length(n) => "Length "@ + decimal(n),
        MessageView::Remove(s) => "Remove "@ + s,
    }
}

/// Whether `cs` begins with the literal `p`.
fn begins(cs: &Vec<char>, p: &str) -> (r: bool)
    ensures
        r == starts_with(cs@, p@),
{
    let pc = chars_of(p);
    chars_start_with(cs.as_slice(), pc.as_slice())
}

/// The text after every leading copy of the literal `p`.
fn after(cs: &Vec<char>, p: &str) -> (r: Vec<char>)
    ensures
        r@ == after_prefix(cs@, p@),
{
    let pc = chars_of(p);
    trim_start_matches_chars(cs.as_slice(), pc.as_slice())
}

/// `prefix` followed by `rest`.
fn prefixed(prefix: &str, rest: &[char]) -> (r: String)
    ensures
        r@ == prefix@ + rest@,
{
    let mut out = chars_of(prefix);
    append_chars(&mut out, rest);
    string_from_chars(out.as_slice())
}

impl Message {
    /// Reads a message from text, or `None` where `new` would panic (a
    /// length that is not a number that fits a `usize`).
    pub fn try_new(string: &str) -> (r: Option<Self>)
        ensures
            r is Some <==> message_readable(string@),
            r matches Some(m) ==> m@ == message_of_text(string@),
    {
        proof {
            reveal_strlit("Exit");
            reveal_strlit("Ok");
            reveal_strlit("List");
            reveal_strlit("Length ");
        }
        let cs = chars_of(string);
        if !str_equal(string, "Exit") && !str_equal(string, "Ok") && !str_equal(string, "List")
            && begins(&cs, "Length ") {
            let rest = after(&cs, "Length ");
            if parse_unsigned_chars(rest.as_slice(), usize::MAX as u64).is_none() {
                return None;
            }
        }
        Some(Message::new(string))
    }

    pub fn new(string: &str) -> (r: Self)
        requires
            message_readable(string@),
        ensures
            r@ == message_of_text(string@),
    {
        let cs = chars_of(string);
        if str_equal(string, "Exit") {
            return Message::Exit;
        }
        if str_equal(string, "Ok") {
            return Message::Ack;
        }
        if str_equal(string, "List") {
            return Message::List;
        }
        if begins(&cs, "Error ") {
            let rest = after(&cs, "Error ");
            return Message::Error(string_from_chars(rest.as_slice()));
        }
        if begins(&cs, "Login ") {
            let rest = after(&cs, "Login ");
            return Message::Login(string_from_chars(rest.as_slice()));
        }
        if begins(&cs, "Data ") {
            let rest = after(&cs, "Data ");
            return Message::Data(string_from_chars(rest.as_slice()));
        }
        if begins(&cs, "Get ") {
            let rest = after(&cs, "Get ");
            return Message::Get(string_from_chars(rest.as_slice()));
        }
        if begins(&cs, "Set ") {
            let rest = after(&cs, "Set ");
            return Message::Store(string_from_chars(rest.as_slice()));
        }
        if begins(&cs, "Length ") {
            let rest = after(&cs, "Length ");
            let length = match parse_unsigned_chars(rest.as_slice(), usize::MAX as u64) {
                Some(n) => n as usize,
                None => {
                    assert(false);
                    0
                },
            };
            return Message::Length(length);
        }
        if begins(&cs, "Remove ") {
            let rest = after(&cs, "Remove ");
            return Message::Remove(string_from_chars(rest.as_slice()));
        }
        Message::Error(String::from_str("Invalid Message"))
    }

    /// Encodes a [Message] into a [String]. Read back with `new`, the text
    /// gives the same message where its payload does not itself begin with
    /// the message's prefix (`wire_safe`).
    pub fn to_string(&self) -> (r: String)
        ensures
            r@ == message_text(self@),
            wire_safe(self@) ==> message_readable(r@) && message_of_text(r@) == self@,
    {
        proof {
            reveal_strlit("Exit");
            reveal_strlit("Ok");
            reveal_strlit("List");
            reveal_strlit("Error ");
            reveal_strlit("Login ");
            reveal_strlit("Data ");
            reveal_strlit("Get ");
            reveal_strlit("Set ");
            reveal_strlit("Length ");
            reveal_strlit("Remove ");
        }
        let r = match self {
            Message::Exit => String::from_str("Exit"),
            Message::Ack => String::from_str("Ok"),
            Message::List => String::from_str("List"),
            Message::Error(s) => prefixed("Error ", chars_of(s.as_str()).as_slice()),
            Message::Login(s) => prefixed("Login ", chars_of(s.as_str()).as_slice()),
            Message::Data(s) => prefixed("Data ", chars_of(s.as_str()).as_slice()),
            Message::Get(s) => prefixed("Get ", chars_of(s.as_str()).as_slice()),
            Message::Store(s) => prefixed("Set ", chars_of(s.as_str()).as_slice()),
            Message::Length(num) => prefixed("Length ", decimal_chars(*num as u64).as_slice()),
            Message::Remove(s) => prefixed("Remove ", chars_of(s.as_str()).as_slice()),
        };
        proof {
            if wire_safe(self@) {
                lemma_message_reads(self@);
            }
        }
        r
    }
}

/// A message that survives the trip through text: its payload does not
/// itself begin with the message's prefix (that copy would be trimmed away).
pub open spec fn wire_safe(m: MessageView) -> bool {
    match m {
        MessageView::Error(s) => !starts_with(s, "Error "@),
        MessageView::Login(s) => !starts_with(s, "Login "@),
        MessageView::Data(s) => !starts_with(s, "Data "@),
        MessageView::Get(s) => !starts_with(s, "Get "@),
        MessageView::Store(s) => !starts_with(s, "Set "@),
        MessageView::Remove(s) => !starts_with(s, "Remove "@),
        _ => true,
    }
}

/// Each message's text is read back as that message.
proof fn lemma_message_reads(m: MessageView)
    requires
        wire_safe(m),
        m matches MessageView::Length(n) ==> n <= usize::MAX,
    ensures
        message_readable(message_text(m)),
        message_of_text(message_text(m)) == m,
{
    reveal_strlit("Exit");
    reveal_strlit("Ok");
    reveal_strlit("List");
    reveal_strlit("Error ");
    reveal_strlit("Login ");
    reveal_strlit("Data ");
    reveal_strlit("Get ");
    reveal_strlit("Set ");
    reveal_strlit("Length ");
    reveal_strlit("Remove ");
    let r = message_text(m);
    match m {
        MessageView::Exit => {},
        MessageView::Ack => {
            assert(r.len() != "Exit"@.len());
        },
        MessageView::List => {
            lemma_char_differs(r, "Exit"@, 0);
            lemma_char_differs(r, "Ok"@, 0);
        },
        MessageView::Error(s) => {
            lemma_trim_prefix("Error "@, s);
            lemma_char_differs(r, "Exit"@, 1);
            lemma_char_differs(r, "Ok"@, 0);
            lemma_char_differs(r, "List"@, 0);
            lemma_char_differs(r, "Length "@, 0);
        },
        MessageView::Login(s) => {
            lemma_trim_prefix("Login "@, s);
            lemma_char_differs(r, "Exit"@, 0);
            lemma_char_differs(r, "Ok"@, 0);
            lemma_char_differs(r, "List"@, 1);
            lemma_char_differs(r, "Error "@, 0);
            lemma_char_differs(r, "Length "@, 1);
        },
        MessageView::Data(s) => {
            lemma_trim_prefix("Data "@, s);
            lemma_char_differs(r, "Exit"@, 0);
            lemma_char_differs(r, "Ok"@, 0);
            lemma_char_differs(r, "List"@, 0);
            lemma_char_differs(r, "Error "@, 0);
            lemma_char_differs(r, "Login "@, 0);
            lemma_char_differs(r, "Length "@, 0);
        },
        MessageView::Get(s) => {
            lemma_trim_prefix("Get "@, s);
            lemma_char_differs(r, "Exit"@, 0);
            lemma_char_differs(r, "Ok"@, 0);
            lemma_char_differs(r, "List"@, 0);
            lemma_char_differs(r, "Error "@, 0);
            lemma_char_differs(r, "Login "@, 0);
            lemma_char_differs(r, "Data "@, 0);
            lemma_char_differs(r, "Length "@, 0);
        },
        MessageView::Store(s) => {
            lemma_trim_prefix("Set "@, s);
            lemma_char_differs(r, "Exit"@, 0);
            lemma_char_differs(r, "Ok"@, 0);
            lemma_char_differs(r, "List"@, 0);
            lemma_char_differs(r, "Error "@, 0);
            lemma_char_differs(r, "Login "@, 0);
            lemma_char_differs(r, "Data "@, 0);
            lemma_char_differs(r, "Get "@, 0);
            lemma_char_differs(r, "Length "@, 0);
        },
        MessageView::Length(n) => {
            lemma_decimal_parse(n);
            lemma_parse_decimal(n, usize::MAX as nat);
            assert(is_digit(decimal(n)[0]));
            lemma_char_differs(decimal(n), "Length "@, 0);
            lemma_trim_prefix("Length "@, decimal(n));
            lemma_char_differs(r, "Exit"@, 0);
            lemma_char_differs(r, "Ok"@, 0);
            lemma_char_differs(r, "List"@, 1);
            lemma_char_differs(r, "Error "@, 0);
            lemma_char_differs(r, "Login "@, 1);
            lemma_char_differs(r, "Data "@, 0);
            lemma_char_differs(r, "Get "@, 0);
            lemma_char_differs(r, "Set "@, 0);
        },
        MessageView::Remove(s) => {
            lemma_trim_prefix("Remove "@, s);
            lemma_char_differs(r, "Exit"@, 0);
            lemma_char_differs(r, "Ok"@, 0);
            lemma_char_differs(r, "List"@, 0);
            lemma_char_differs(r, "Error "@, 0);
            lemma_char_differs(r, "Login "@, 0);
            lemma_char_differs(r, "Data "@, 0);
            lemma_char_differs(r, "Get "@, 0);
            lemma_char_differs(r, "Set "@, 0);
            lemma_char_differs(r, "Length "@, 0);
        },
    }
}

} // verus!
