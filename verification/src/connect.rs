use vstd::prelude::*;
use vstd::string::StringExecFns;
use vstd::utf8::{decode_utf8, encode_utf8, valid_utf8};
use crate::entry::{entry_of_text, entry_readable, entry_text, Entry, EntryView};
use crate::smsg::{
    SMsgView, cypher_view, from_hex_one_line_view, hex_lines, utf8_text_of, with_breaks, SMsg,
};
use crate::text::{
    lemma_first_char_differs, lemma_split_cons, lemma_split_single, lemma_trim_prefix, matches_at,
    no_newline, append_chars, chars_equal, chars_of, chars_start_with, parse_unsigned, parse_unsigned_chars,
    split, split_chars, starts_with, str_equal, string_from_chars, string_from_utf8,
    trim_start_matches, trim_start_matches_chars, utf8_lossy, utf8_lossy_string, views,
};
use crate::timestamp::{before, date_text_shape, timestamp_debug, timestamp_parse, Timestamp};
use crate::user_info::{user_hash, UserInfo};

pub mod sync;

verus! {

/// What a [Message] holds.
pub enum MessageView {
    Exit,
    Ack,
    Hash(Seq<char>),
    Error(Seq<char>),
    Invalid,
    Header(Seq<char>, (i64, u32)),
    Name(Seq<char>),
    Request(Seq<char>),
    Entry(EntryView),
}

pub enum Message {
    Exit,
    Ack,
    Hash(String),
    Error(String),
    Invalid,
    Header((String, Timestamp)),
    Name(String),
    Request(String),
    Entry(Entry),
}

impl View for Message {
    type V = MessageView;

    open spec fn view(&self) -> MessageView {
        match self {
            Message::Exit => MessageView::Exit,
            Message::Ack => MessageView::Ack,
            Message::Hash(s) => MessageView::Hash(s@),
            Message::Error(s) => MessageView::Error(s@),
            Message::Invalid => MessageView::Invalid,
            Message::Header((n, t)) => MessageView::Header(n@, t@),
            Message::Name(s) => MessageView::Name(s@),
            Message::Request(s) => MessageView::Request(s@),
            Message::Entry(e) => MessageView::Entry(e@),
        }
    }
}

/// The text after every leading copy of `prefix`.
pub open spec fn payload(s: Seq<char>, prefix: Seq<char>) -> Seq<char> {
    trim_start_matches(s, prefix)
}

/// The two lines of a header's text: the name, then the time.
pub open spec fn header_parts(s: Seq<char>) -> Seq<Seq<char>> {
    split(payload(s, "Header "@), "\n"@)
}

/// Text that `Message::new` reads without panicking: a header has a line
/// break after its name, and an entry's text is readable.
pub open spec fn message_readable(s: Seq<char>) -> bool {
    &&& (s != "Exit"@ && s != "Ok"@ && s != "Invalid"@ && starts_with(s, "Header "@))
        ==> header_parts(s).len() >= 2
    &&& (s != "Exit"@ && s != "Ok"@ && s != "Invalid"@ && starts_with(s, "Entry "@))
        ==> entry_readable(payload(s, "Entry "@))
}

/// The message that readable text stands for. A header whose time does not
/// parse takes the current time, which this leaves open (`None` there).
pub open spec fn message_of_text(s: Seq<char>) -> Option<MessageView> {
    if s == "Exit"@ {
        Some(MessageView::Exit)
    } else if s == "Ok"@ {
        Some(MessageView::Ack)
    } else if s == "Invalid"@ {
        Some(MessageView::Invalid)
    } else if starts_with(s, "Hash "@) {
        Some(MessageView::Hash(payload(s, "Hash "@)))
    } else if starts_with(s, "Error "@) {
        Some(MessageView::Error(payload(s, "Error "@)))
    } else if starts_with(s, "Header "@) {
        match timestamp_parse(header_parts(s)[1]) {
            Some(t) => Some(MessageView::Header(header_parts(s)[0], t)),
            None => None,
        }
    } else if starts_with(s, "Name "@) {
        Some(MessageView::Name(payload(s, "Name "@)))
    } else if starts_with(s, "Request "@) {
        Some(MessageView::Request(payload(s, "Request "@)))
    } else if starts_with(s, "Entry "@) {
        Some(MessageView::Entry(entry_of_text(payload(s, "Entry "@))))
    } else {
        Some(MessageView::Error("Invalid Message"@))
    }
}

/// The text of a message.
pub open spec fn message_text(m: MessageView) -> Seq<char> {
    match m {
        MessageView::Exit => "Exit"@,
        MessageView::Ack => "Ok"@,
        MessageView::Hash(s) => "Hash "@ + s,
        MessageView::Error(s) => "Error "@ + s,
        MessageView::Invalid => "Invalid"@,
        MessageView::Header(n, t) => "Header "@ + n + "\n"@ + timestamp_debug(t.0, t.1),
        MessageView::Name(s) => "Name "@ + s,
        MessageView::Request(s) => "Request "@ + s,
        MessageView::Entry(e) => "Entry "@ + entry_text(e),
    }
}

/// Whether `cs` begins with the literal `p`.
fn begins(cs: &Vec<char>, p: &str) -> (r: bool)
    ensures
        r == starts_with(cs@, p@),
{
    let pc = chars_of(p);
    chars_start_with(cs.as_slice(), pc.as_slice())
}

/// The text after every leading copy of the literal `p`, as a `String`.
fn after(cs: &Vec<char>, p: &str) -> (r: String)
    ensures
        r@ == payload(cs@, p@),
{
    let pc = chars_of(p);
    let rest = trim_start_matches_chars(cs.as_slice(), pc.as_slice());
    string_from_chars(rest.as_slice())
}

impl Message {
    /// Reads a message from text, or `None` where `new` would panic.
    pub fn try_new(string: &str) -> (r: Option<Message>)
        ensures
            r is Some <==> message_readable(string@),
            r matches Some(m) ==> match message_of_text(string@) {
                Some(v) => m@ == v,
                None => m@ matches MessageView::Header(n, _) && n == header_parts(string@)[0],
            },
    {
        let cs = chars_of(string);
        proof {
            reveal_strlit("Hash ");
            reveal_strlit("Error ");
            reveal_strlit("Header ");
            reveal_strlit("Entry ");
            reveal_strlit("Name ");
            reveal_strlit("Request ");
            if starts_with(string@, "Entry "@) {
                assert(string@[0] == "Entry "@[0] && string@[1] == "Entry "@[1]);
                assert(!starts_with(string@, "Hash "@)) by {
                    if starts_with(string@, "Hash "@) { assert(string@[0] == "Hash "@[0]); }
                }
                assert(!starts_with(string@, "Error "@)) by {
                    if starts_with(string@, "Error "@) { assert(string@[1] == "Error "@[1]); }
                }
                assert(!starts_with(string@, "Header "@)) by {
                    if starts_with(string@, "Header "@) { assert(string@[0] == "Header "@[0]); }
                }
                assert(!starts_with(string@, "Name "@)) by {
                    if starts_with(string@, "Name "@) { assert(string@[0] == "Name "@[0]); }
                }
                assert(!starts_with(string@, "Request "@)) by {
                    if starts_with(string@, "Request "@) { assert(string@[0] == "Request "@[0]); }
                }
            }
            if starts_with(string@, "Header "@) {
                assert(string@[0] == "Header "@[0] && string@[1] == "Header "@[1]);
                assert(!starts_with(string@, "Hash "@)) by {
                    if starts_with(string@, "Hash "@) { assert(string@[1] == "Hash "@[1]); }
                }
                assert(!starts_with(string@, "Error "@)) by {
                    if starts_with(string@, "Error "@) { assert(string@[0] == "Error "@[0]); }
                }
            }
        }
        if str_equal(string, "Exit") {
            return Some(Message::Exit);
        }
        if str_equal(string, "Ok") {
            return Some(Message::Ack);
        }
        if str_equal(string, "Invalid") {
            return Some(Message::Invalid);
        }
        if begins(&cs, "Hash ") {
            return Some(Message::Hash(after(&cs, "Hash ")));
        }
        if begins(&cs, "Error ") {
            return Some(Message::Error(after(&cs, "Error ")));
        }
        if begins(&cs, "Header ") {
            let rest = after(&cs, "Header ");
            let rc = chars_of(rest.as_str());
            let nl = chars_of("\n");
            proof {
                reveal_strlit("\n");
            }
            let split = split_chars(rc.as_slice(), nl.as_slice());
            if split.len() < 2 {
                return None;
            }
            assert(views(split@)[0] == split@[0]@);
            assert(views(split@)[1] == split@[1]@);
            let message = string_from_chars(split[0].as_slice());
            let ts = string_from_chars(split[1].as_slice());
            let timestamp = match Timestamp::parse(ts.as_str()) {
                Some(t) => t,
                None => Timestamp::now(),
            };
            return Some(Message::Header((message, timestamp)));
        }
        if begins(&cs, "Name ") {
            return Some(Message::Name(after(&cs, "Name ")));
        }
        if begins(&cs, "Request ") {
            return Some(Message::Request(after(&cs, "Request ")));
        }
        if begins(&cs, "Entry ") {
            let rest = after(&cs, "Entry ");
            return match Entry::try_from_string(rest.as_str()) {
                Some(e) => Some(Message::Entry(e)),
                None => None,
            };
        }
        Some(Message::Error(String::from_str("Invalid Message")))
    }

    pub fn new(string: &str) -> (r: Self)
        requires
            message_readable(string@),
        ensures
            match message_of_text(string@) {
                Some(v) => r@ == v,
                None => r@ matches MessageView::Header(n, _) && n == header_parts(string@)[0],
            },
    {
        match Message::try_new(string) {
            Some(m) => m,
            None => {
                assert(false);
                Message::Invalid
            },
        }
    }

    /// The message as text. Read back with `new`, the text gives the same
    /// message where the message can travel as text (`wire_safe`).
    pub fn to_string(&self) -> (r: String)
        ensures
            r@ == message_text(self@),
            wire_safe(self@) ==> message_readable(r@) && message_of_text(r@) == Some(self@),
    {
        proof {
            reveal_strlit("Exit");
            reveal_strlit("Ok");
            reveal_strlit("Invalid");
            reveal_strlit("Hash ");
            reveal_strlit("Error ");
            reveal_strlit("Header ");
            reveal_strlit("Name ");
            reveal_strlit("Request ");
            reveal_strlit("Entry ");
            reveal_strlit("\n");
        }
        match self {
            Message::Exit => {
                let r = String::from_str("Exit");
                assert(message_of_text(r@) == Some(MessageView::Exit));
                r
            },
            Message::Ack => {
                let r = String::from_str("Ok");
                assert(r@ != "Exit"@) by {
                    assert(r@.len() != "Exit"@.len());
                }
                assert(message_of_text(r@) == Some(MessageView::Ack));
                r
            },
            Message::Hash(s) => {
                let r = prefixed("Hash ", s.as_str());
                proof {
                    if wire_safe(self@) {
                        lemma_prefixed_reads(r@, "Hash "@, s@);
                        if starts_with(r@, "Header "@) {
                            assert(r@.subrange(0, 7)[1] == r@[1]);
                            assert(r@[1] == "Header "@[1]);
                        }
                        lemma_first_char_differs(r@, "Entry "@);
                        assert(message_readable(r@));
                        assert(message_of_text(r@) == Some(self@));
                    }
                }
                r
            },
            Message::Error(s) => {
                let r = prefixed("Error ", s.as_str());
                proof {
                    if wire_safe(self@) {
                        lemma_prefixed_reads(r@, "Error "@, s@);
                        lemma_first_char_differs(r@, "Hash "@);
                        lemma_first_char_differs(r@, "Header "@);
                        if starts_with(r@, "Entry "@) {
                            assert(r@.subrange(0, 6)[1] == r@[1]);
                            assert(r@[1] == "Entry "@[1]);
                        }
                        assert(message_readable(r@));
                        assert(message_of_text(r@) == Some(self@));
                    }
                }
                r
            },
            Message::Invalid => {
                let r = String::from_str("Invalid");
                assert(r@ != "Exit"@ && r@ != "Ok"@) by {
                    assert(r@.len() == 7);
                }
                assert(message_of_text(r@) == Some(MessageView::Invalid));
                r
            },
            Message::Header((name, date)) => {
                let mut out = chars_of("Header ");
                let nc = chars_of(name.as_str());
                append_chars(&mut out, nc.as_slice());
                let nl = chars_of("\n");
                append_chars(&mut out, nl.as_slice());
                let d = date.debug_string();
                let dc = chars_of(d.as_str());
                append_chars(&mut out, dc.as_slice());
                let r = string_from_chars(out.as_slice());
                proof {
                    if wire_safe(self@) {
                        lemma_header_reads(name@, d@);
                        assert(r@ =~= "Header "@ + (name@ + "\n"@ + d@));
                        lemma_prefixed_reads(r@, "Header "@, name@ + "\n"@ + d@);
                        if starts_with(r@, "Hash "@) {
                            assert(r@.subrange(0, 5)[1] == r@[1]);
                            assert(r@[1] == "Hash "@[1]);
                        }
                        lemma_first_char_differs(r@, "Error "@);
                        lemma_first_char_differs(r@, "Entry "@);
                        assert(header_parts(r@) == seq![name@, d@]);
                        assert(message_readable(r@));
                        assert(message_of_text(r@) == Some(self@));
                    }
                }
                r
            },
            Message::Name(s) => {
                let r = prefixed("Name ", s.as_str());
                proof {
                    if wire_safe(self@) {
                        lemma_prefixed_reads(r@, "Name "@, s@);
                        lemma_first_char_differs(r@, "Hash "@);
                        lemma_first_char_differs(r@, "Error "@);
                        lemma_first_char_differs(r@, "Header "@);
                        lemma_first_char_differs(r@, "Entry "@);
                        assert(message_readable(r@));
                        assert(message_of_text(r@) == Some(self@));
                    }
                }
                r
            },
            Message::Request(s) => {
                let r = prefixed("Request ", s.as_str());
                proof {
                    if wire_safe(self@) {
                        lemma_prefixed_reads(r@, "Request "@, s@);
                        lemma_first_char_differs(r@, "Hash "@);
                        lemma_first_char_differs(r@, "Error "@);
                        lemma_first_char_differs(r@, "Header "@);
                        lemma_first_char_differs(r@, "Name "@);
                        lemma_first_char_differs(r@, "Entry "@);
                        assert(message_readable(r@));
                        assert(message_of_text(r@) == Some(self@));
                    }
                }
                r
            },
            Message::Entry(entry) => {
                let t = entry.to_string();
                let r = prefixed("Entry ", t.as_str());
                proof {
                    if wire_safe(self@) {
                        lemma_first_char_differs(t@, "Entry "@);
                        lemma_prefixed_reads(r@, "Entry "@, t@);
                        lemma_first_char_differs(r@, "Hash "@);
                        if starts_with(r@, "Error "@) {
                            assert(r@.subrange(0, 6)[1] == r@[1]);
                            assert(r@[1] == "Error "@[1]);
                        }
                        lemma_first_char_differs(r@, "Header "@);
                        lemma_first_char_differs(r@, "Name "@);
                        lemma_first_char_differs(r@, "Request "@);
                        assert(message_readable(r@));
                        assert(message_of_text(r@) == Some(self@));
                    }
                }
                r
            },
        }
    }
}

/// A message that survives the trip through text: a payload does not itself
/// begin with its own prefix (that copy would be trimmed away), a header's
/// name holds no line break, and an entry has a data block.
pub open spec fn wire_safe(m: MessageView) -> bool {
    match m {
        MessageView::Hash(s) => !starts_with(s, "Hash "@),
        MessageView::Error(s) => !starts_with(s, "Error "@),
        MessageView::Header(n, _) => no_newline(n) && !starts_with(n, "Header "@),
        MessageView::Name(s) => !starts_with(s, "Name "@),
        MessageView::Request(s) => !starts_with(s, "Request "@),
        MessageView::Entry(e) => e.message.data.len() >= 1,
        _ => true,
    }
}

/// Text made of a prefix and a payload that does not begin with the prefix
/// is none of the bare words, and its payload is the payload.
proof fn lemma_prefixed_reads(r: Seq<char>, p: Seq<char>, s: Seq<char>)
    requires
        r == p + s,
        p.len() >= 5,
        !starts_with(s, p),
        p[0] != 'E' || p[1] != 'x',
        p[0] != 'I',
    ensures
        starts_with(r, p),
        payload(r, p) == s,
        r != "Exit"@,
        r != "Ok"@,
        r != "Invalid"@,
{
    reveal_strlit("Exit");
    reveal_strlit("Ok");
    reveal_strlit("Invalid");
    lemma_trim_prefix(p, s);
    assert(r.len() >= 5);
    assert(r[0] == p[0] && r[1] == p[1]);
}

/// The payload of a header's text: the name, a line break and the date,
/// where the name holds no line break and the date is a `Debug` text.
proof fn lemma_header_reads(n: Seq<char>, d: Seq<char>)
    requires
        no_newline(n),
        !starts_with(n, "Header "@),
        date_text_shape(d),
    ensures
        !starts_with(n + "\n"@ + d, "Header "@),
        split(n + "\n"@ + d, "\n"@) == seq![n, d],
{
    reveal_strlit("\n");
    reveal_strlit("Header ");
    let h = "Header "@;
    let p = "\n"@;
    let x = n + p + d;
    if starts_with(x, h) {
        if n.len() >= 7 {
            assert(n.subrange(0, 7) =~= x.subrange(0, 7));
        } else {
            assert(x[n.len() as int] == '\n');
            assert(x.subrange(0, 7)[n.len() as int] == h[n.len() as int]);
        }
    }
    assert forall|i: int| 0 <= i < n.len() implies !matches_at(x, p, i) by {
        if matches_at(x, p, i) {
            assert(x.subrange(i, i + 1)[0] == x[i]);
            assert(x[i] == n[i]);
        }
    }
    lemma_split_cons(n, p, d);
    assert forall|i: int| 0 <= i implies !matches_at(d, p, i) by {
        if matches_at(d, p, i) {
            assert(d.subrange(i, i + 1)[0] == d[i]);
        }
    }
    lemma_split_single(d, p);
}

/// `prefix` followed by `rest`.
fn prefixed(prefix: &str, rest: &str) -> (r: String)
    ensures
        r@ == prefix@ + rest@,
{
    let mut out = chars_of(prefix);
    let rc = chars_of(rest);
    append_chars(&mut out, rc.as_slice());
    string_from_chars(out.as_slice())
}

// ------------------------------------------------------------------
// Addresses, framing and buffers
// ------------------------------------------------------------------

/// Four numbers from 0 to 255 separated by dots.
pub open spec fn ip_ok(ip: Seq<char>) -> bool {
    let parts = split(ip, "."@);
    &&& parts.len() == 4
    &&& forall|i: int| 0 <= i < 4 ==> parse_unsigned(#[trigger] parts[i], 255) is Some
}

/// Returns true if the given ip address is in the form x.x.x.x
/// where x is a valid u8
pub fn valid_ip(ip: &str) -> (r: bool)
    ensures
        r == ip_ok(ip@),
{
    let cs = chars_of(ip);
    let dot = chars_of(".");
    proof {
        reveal_strlit(".");
    }
    let parts = split_chars(cs.as_slice(), dot.as_slice());
    if parts.len() != 4 {
        return false;
    }
    let mut i: usize = 0;
    while i < 4
        invariant
            views(parts@) == split(ip@, "."@),
            parts@.len() == 4,
            i <= 4,
            forall|j: int| 0 <= j < i ==> parse_unsigned(#[trigger] split(ip@, "."@)[j], 255) is Some,
        decreases 4 - i,
    {
        assert(views(parts@)[i as int] == parts@[i as int]@);
        if parse_unsigned_chars(parts[i].as_slice(), 255).is_none() {
            return false;
        }
        i += 1;
    }
    true
}

/// The bytes of a buffer up to its first zero byte.
pub open spec fn before_zero(buf: Seq<u8>) -> Seq<u8>
    decreases buf.len(),
{
    if buf.len() == 0 || buf[0] == 0 {
        seq![]
    } else {
        seq![buf[0]] + before_zero(buf.skip(1))
    }
}

/// What `convert_buffer` makes of bytes: the decoded text when they are
/// valid UTF-8, the lossy decoding otherwise.
pub open spec fn buffer_text(bytes: Seq<u8>) -> Seq<char> {
    if valid_utf8(bytes) {
        decode_utf8(bytes)
    } else {
        utf8_lossy(bytes)
    }
}

proof fn lemma_before_zero(buf: Seq<u8>, i: int)
    requires
        0 <= i <= buf.len(),
        forall|j: int| 0 <= j < i ==> buf[j] != 0,
        i == buf.len() || buf[i] == 0,
    ensures
        before_zero(buf) == buf.take(i),
    decreases buf.len(),
{
    if buf.len() == 0 || buf[0] == 0 {
        assert(buf.take(i) =~= Seq::<u8>::empty());
    } else {
        lemma_before_zero(buf.skip(1), i - 1);
        assert(seq![buf[0]] + buf.skip(1).take(i - 1) =~= buf.take(i));
    }
}

/// Converts a [u8] slice to a [String] without trailing nulls
pub fn convert_buffer(buf: &[u8]) -> (r: String)
    ensures
        r@ == buffer_text(before_zero(buf@)),
{
    let mut vec: Vec<u8> = Vec::new();
    let mut i: usize = 0;
    while i < buf.len() && buf[i] != 0
        invariant
            i <= buf@.len(),
            vec@ == buf@.take(i as int),
            forall|j: int| 0 <= j < i ==> buf@[j] != 0,
        decreases buf@.len() - i,
    {
        vec.push(buf[i]);
        i += 1;
        assert(vec@ =~= buf@.take(i as int));
    }
    proof {
        lemma_before_zero(buf@, i as int);
    }
    let copy = crate::bytes::copy_bytes(vec.as_slice());
    match string_from_utf8(copy) {
        Some(string) => string,
        None => utf8_lossy_string(vec.as_slice()),
    }
}

/// The length of a frame's text, as the four big-endian bytes that come
/// first (the byte length, cut to 32 bits).
pub open spec fn frame_header_of(len: nat) -> Seq<u8> {
    let n = len % 0x1_0000_0000;
    seq![(n / 0x100_0000) as u8, ((n / 0x1_0000) % 0x100) as u8, ((n / 0x100) % 0x100) as u8, (n % 0x100) as u8]
}

/// The four bytes written before a message's text: its byte length as a
/// big-endian `u32`.
pub fn frame_header(data: &str) -> (r: Vec<u8>)
    ensures
        r@ == frame_header_of(vstd::utf8::encode_utf8(data@).len()),
{
    let len = data.as_bytes().len();
    let n = (len as u64) % 0x1_0000_0000;
    let r = vec![(n / 0x100_0000) as u8, ((n / 0x1_0000) % 0x100) as u8, ((n / 0x100) % 0x100) as u8, (n % 0x100) as u8];
    assert(r@ =~= frame_header_of(vstd::utf8::encode_utf8(data@).len()));
    r
}

/// The length that four big-endian bytes give.
pub open spec fn frame_length_of(h: Seq<u8>) -> nat {
    ((h[0] as nat) * 0x100_0000 + (h[1] as nat) * 0x1_0000 + (h[2] as nat) * 0x100 + (h[3] as nat)) as nat
}

/// The length of the text that follows, read from the four bytes before it.
pub fn frame_length(header: &[u8]) -> (r: u32)
    requires
        header@.len() == 4,
    ensures
        r as nat == frame_length_of(header@),
{
    (header[0] as u32) * 0x100_0000 + (header[1] as u32) * 0x1_0000 + (header[2] as u32) * 0x100
        + (header[3] as u32)
}

// ------------------------------------------------------------------
// Headers and their differences
// ------------------------------------------------------------------

/// A file's name and the time of its latest entry.
pub type Header = (String, Timestamp);

/// The names and times of headers.
pub open spec fn headers_view(v: Seq<Header>) -> Seq<(Seq<char>, (i64, u32))> {
    v.map_values(|h: Header| (h.0@, h.1@))
}

/// `b` has a file of this name.
pub open spec fn has_name(b: Seq<(Seq<char>, (i64, u32))>, name: Seq<char>) -> bool {
    exists|j: int| 0 <= j < b.len() && (#[trigger] b[j]).0 == name
}

/// `b` has a file of this name that is older than `date`.
pub open spec fn has_older(
    b: Seq<(Seq<char>, (i64, u32))>,
    name: Seq<char>,
    date: (i64, u32),
) -> bool {
    exists|j: int| 0 <= j < b.len() && (#[trigger] b[j]).0 == name && before(b[j].1, date)
}

/// `b` lacks the file of header `h`, or holds an older copy of it.
pub open spec fn needed(h: (Seq<char>, (i64, u32)), b: Seq<(Seq<char>, (i64, u32))>) -> bool {
    !has_name(b, h.0) || has_older(b, h.0, h.1)
}

/// The headers of `a` that `b` needs, in order.
pub open spec fn diff(
    a: Seq<(Seq<char>, (i64, u32))>,
    b: Seq<(Seq<char>, (i64, u32))>,
) -> Seq<(Seq<char>, (i64, u32))>
    decreases a.len(),
{
    if a.len() == 0 {
        seq![]
    } else if needed(a.last(), b) {
        diff(a.drop_last(), b).push(a.last())
    } else {
        diff(a.drop_last(), b)
    }
}

pub(crate) fn clone_header(h: &Header) -> (r: Header)
    ensures
        r.0@ == h.0@,
        r.1@ == h.1@,
{
    (h.0.clone(), h.1)
}

/// Whether `b` needs header `h`.
fn header_needed(h: &Header, b: &Vec<Header>) -> (r: bool)
    ensures
        r == needed((h.0@, h.1@), headers_view(b@)),
{
    let ghost bv = headers_view(b@);
    let mut found = false;
    let mut j: usize = 0;
    while j < b.len()
        invariant
            bv == headers_view(b@),
            j <= b@.len(),
            found == exists|k: int| 0 <= k < j && (#[trigger] bv[k]).0 == h.0@,
            forall|k: int| 0 <= k < j && (#[trigger] bv[k]).0 == h.0@ ==> !before(bv[k].1, h.1@),
        decreases b@.len() - j,
    {
        let (b_name, b_date) = (&b[j].0, &b[j].1);
        assert(bv[j as int] == (b_name@, b_date@));
        if str_equal(b_name.as_str(), h.0.as_str()) {
            found = true;
            // a has a more updated file than b has
            if b_date.is_before(&h.1) {
                return true;
            }
        }
        j += 1;
    }
    // a has a file the b doesn't
    if !found {
        return true;
    }
    false
}

/// The headers of `a` that `b` lacks or holds an older copy of.
pub fn get_diff(a: &Vec<Header>, b: &Vec<Header>) -> (r: Vec<Header>)
    ensures
        headers_view(r@) == diff(headers_view(a@), headers_view(b@)),
{
    let mut out: Vec<Header> = Vec::new();
    let mut i: usize = 0;
    while i < a.len()
        invariant
            i <= a@.len(),
            headers_view(out@) == diff(headers_view(a@).take(i as int), headers_view(b@)),
        decreases a@.len() - i,
    {
        let ghost av = headers_view(a@);
        assert(av.take(i + 1).drop_last() =~= av.take(i as int));
        assert(av.take(i + 1).last() == av[i as int]);
        if header_needed(&a[i], b) {
            let h = clone_header(&a[i]);
            let ghost before = out@;
            out.push(h);
            assert(headers_view(out@) =~= headers_view(before).push(av[i as int]));
        }
        i += 1;
    }
    assert(headers_view(a@).take(i as int) =~= headers_view(a@));
    out
}

// ------------------------------------------------------------------
// Names of stored files
// ------------------------------------------------------------------

/// The name of an entry file, read back from the name it is stored under.
pub fn entry_name_of_file(user_info: &UserInfo, file_name: &str) -> (r: String)
    requires
        hex_lines(with_breaks(file_name@)),
    ensures
        r@ == utf8_text_of(
            cypher_view(
                from_hex_one_line_view(file_name@),
                user_hash(user_info.spec_username(), user_info.spec_password_hash()),
            ),
        ),
{
    let mut name = SMsg::from_hex_string_one_line(file_name);
    let h = user_info.hash();
    name.decrypt(h.as_str());
    name.to_utf8_string()
}

} // verus!

verus! {

/// No name occurs twice among the headers.
pub open spec fn unique_names(a: Seq<(Seq<char>, (i64, u32))>) -> bool {
    forall|i: int, j: int| 0 <= i < j < a.len() ==> (#[trigger] a[i]).0 != (#[trigger] a[j]).0
}

/// The difference holds exactly the headers of `a` that `b` needs.
pub proof fn lemma_diff_elements(a: Seq<(Seq<char>, (i64, u32))>, b: Seq<(Seq<char>, (i64, u32))>)
    ensures
        forall|x: (Seq<char>, (i64, u32))|
            #[trigger] diff(a, b).contains(x) <==> a.contains(x) && needed(x, b),
    decreases a.len(),
{
    if a.len() > 0 {
        lemma_diff_elements(a.drop_last(), b);
        assert forall|x: (Seq<char>, (i64, u32))|
            #[trigger] diff(a, b).contains(x) <==> a.contains(x) && needed(x, b) by {
            let d0 = diff(a.drop_last(), b);
            if a.contains(x) {
                let i = choose|i: int| 0 <= i < a.len() && a[i] == x;
                if i < a.len() - 1 {
                    assert(a.drop_last()[i] == x);
                }
            }
            if a.drop_last().contains(x) {
                let i = choose|i: int| 0 <= i < a.drop_last().len() && a.drop_last()[i] == x;
                assert(a[i] == x);
            }
            if needed(a.last(), b) {
                assert(diff(a, b) == d0.push(a.last()));
                if d0.push(a.last()).contains(x) {
                    let i = choose|i: int| 0 <= i < d0.len() + 1 && d0.push(a.last())[i] == x;
                    if i < d0.len() {
                        assert(d0[i] == x);
                    }
                }
                if d0.contains(x) {
                    let i = choose|i: int| 0 <= i < d0.len() && d0[i] == x;
                    assert(d0.push(a.last())[i] == x);
                }
                if x == a.last() {
                    assert(d0.push(a.last())[d0.len() as int] == x);
                }
            }
        }
    }
}

/// With each name at most once on each side, no file travels both ways in
/// a synchronisation: a name that one side sends is not sent back by the
/// other.
pub proof fn law_diff_one_way(
    a: Seq<(Seq<char>, (i64, u32))>,
    b: Seq<(Seq<char>, (i64, u32))>,
    name: Seq<char>,
)
    requires
        unique_names(a),
        unique_names(b),
    ensures
        !(has_name(diff(a, b), name) && has_name(diff(b, a), name)),
{
    if has_name(diff(a, b), name) && has_name(diff(b, a), name) {
        lemma_diff_elements(a, b);
        lemma_diff_elements(b, a);
        let da = diff(a, b);
        let db = diff(b, a);
        let p = choose|j: int| 0 <= j < da.len() && (#[trigger] da[j]).0 == name;
        let q = choose|j: int| 0 <= j < db.len() && (#[trigger] db[j]).0 == name;
        let x = da[p];
        let y = db[q];
        assert(da.contains(x));
        assert(db.contains(y));
        let i = choose|i: int| 0 <= i < a.len() && a[i] == x;
        let k = choose|k: int| 0 <= k < b.len() && b[k] == y;
        assert(has_name(a, name));
        assert(has_name(b, name));
        let i2 = choose|j: int| 0 <= j < a.len() && (#[trigger] a[j]).0 == name && before(a[j].1, y.1);
        let k2 = choose|j: int| 0 <= j < b.len() && (#[trigger] b[j]).0 == name && before(b[j].1, x.1);
        if i2 != i {
            if i2 < i { assert(a[i2].0 != a[i].0); } else { assert(a[i].0 != a[i2].0); }
        }
        if k2 != k {
            if k2 < k { assert(b[k2].0 != b[k].0); } else { assert(b[k].0 != b[k2].0); }
        }
    }
}

} // verus!

verus! {

/// Two machines with the same files, each name once, have nothing to send
/// each other: the difference of the headers with themselves is empty.
pub proof fn law_diff_self_empty(a: Seq<(Seq<char>, (i64, u32))>)
    requires
        unique_names(a),
    ensures
        diff(a, a).len() == 0,
{
    lemma_diff_elements(a, a);
    if diff(a, a).len() > 0 {
        let x = diff(a, a)[0];
        assert(diff(a, a).contains(x));
        let i = choose|i: int| 0 <= i < a.len() && a[i] == x;
        assert(has_name(a, x.0));
        let j = choose|j: int| 0 <= j < a.len() && (#[trigger] a[j]).0 == x.0 && before(a[j].1, x.1);
        if j != i {
            if j < i { assert(a[j].0 != a[i].0); } else { assert(a[i].0 != a[j].0); }
        }
    }
}

} // verus!

verus! {

proof fn lemma_scalar_bytes_nonzero(c: char)
    requires
        c != '\0',
    ensures
        forall|j: int|
            0 <= j < vstd::utf8::encode_scalar(c as u32).len()
                ==> #[trigger] vstd::utf8::encode_scalar(c as u32)[j] != 0,
{
    let v = c as u32;
    vstd::utf8::char_is_scalar(c);
    assert(v != 0);
    if vstd::utf8::has_width_1_encoding(v) {
        assert((v & 0x7F) as u8 != 0) by (bit_vector)
            requires
                1 <= v <= 0x7F,
        ;
    } else {
        assert((0xC0u8 | ((v >> 6) & 0x1F) as u8) != 0) by (bit_vector);
        assert((0xE0u8 | ((v >> 12) & 0x0F) as u8) != 0) by (bit_vector);
        assert((0xF0u8 | ((v >> 18) & 0x7) as u8) != 0) by (bit_vector);
        assert((0x80u8 | (v & 0x3F) as u8) != 0) by (bit_vector);
        assert((0x80u8 | ((v >> 6) & 0x3F) as u8) != 0) by (bit_vector);
        assert((0x80u8 | ((v >> 12) & 0x3F) as u8) != 0) by (bit_vector);
    }
}

/// The UTF-8 bytes of a text without NUL characters hold no zero byte.
proof fn lemma_encode_no_zero(t: Seq<char>)
    requires
        forall|i: int| 0 <= i < t.len() ==> t[i] != '\0',
    ensures
        forall|j: int| 0 <= j < encode_utf8(t).len() ==> encode_utf8(t)[j] != 0,
    decreases t.len(),
{
    if t.len() > 0 {
        let rest = t.drop_first();
        assert forall|i: int| 0 <= i < rest.len() implies rest[i] != '\0' by {
            assert(rest[i] == t[i + 1]);
        }
        lemma_encode_no_zero(rest);
        lemma_scalar_bytes_nonzero(t[0]);
        let head = vstd::utf8::encode_scalar(t[0] as u32);
        assert(encode_utf8(t) == head + encode_utf8(rest));
        assert forall|j: int| 0 <= j < encode_utf8(t).len() implies encode_utf8(t)[j] != 0 by {
            if j < head.len() {
                assert(encode_utf8(t)[j] == head[j]);
            } else {
                assert(encode_utf8(t)[j] == encode_utf8(rest)[j - head.len()]);
            }
        }
    }
}

/// A framed text reads back as written: the four length bytes give the
/// text's byte length back, and the text's bytes (a text without NUL
/// characters) convert back to the same text. With the message laws, a
/// message written with `frame_header` and its text is read back as the
/// same message.
pub proof fn law_frame_roundtrip(t: Seq<char>)
    requires
        encode_utf8(t).len() < 0x1_0000_0000,
        forall|i: int| 0 <= i < t.len() ==> t[i] != '\0',
    ensures
        frame_length_of(frame_header_of(encode_utf8(t).len())) == encode_utf8(t).len(),
        buffer_text(before_zero(encode_utf8(t))) == t,
{
    let n = encode_utf8(t).len();
    assert(n % 0x1_0000_0000 == n);
    let h = frame_header_of(n);
    assert(frame_length_of(h) == n) by (nonlinear_arith)
        requires
            h == seq![(n / 0x100_0000) as u8, ((n / 0x1_0000) % 0x100) as u8, ((n / 0x100) % 0x100) as u8, (n % 0x100) as u8],
            n < 0x1_0000_0000,
            frame_length_of(h) == ((h[0] as nat) * 0x100_0000 + (h[1] as nat) * 0x1_0000 + (h[2] as nat) * 0x100 + (h[3] as nat)) as nat,
    {
        assert(n / 0x100_0000 < 0x100);
        assert(h[0] as nat == n / 0x100_0000);
        assert(h[1] as nat == (n / 0x1_0000) % 0x100);
        assert(h[2] as nat == (n / 0x100) % 0x100);
        assert(h[3] as nat == n % 0x100);
    }
    let b = encode_utf8(t);
    lemma_encode_no_zero(t);
    lemma_before_zero(b, b.len() as int);
    assert(b.take(b.len() as int) =~= b);
    vstd::utf8::encode_utf8_valid_utf8(t);
    vstd::utf8::encode_utf8_decode_utf8(t);
}

} // verus!
