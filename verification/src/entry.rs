use vstd::prelude::*;
use crate::smsg::{
    lemma_hex_string_shape, blank_at, from_hex_string_view, hex_string_ok, hex_string_of, law_hex_string_roundtrip,
    lemma_hex_string_no_blank, well_formed, zero_block, SMsg, SMsgView,
};
use crate::text::{
    free_of, lacks, append_chars, chars_of, lemma_split_cons, lemma_split_single, matches_at, no_newline, split,
    split_chars, string_from_chars, views,
};
use crate::timestamp::{date_char, date_text_shape, timestamp_debug, timestamp_parse, Timestamp};
use crate::FromString;

verus! {

/// What an [Entry] holds: its time and its message.
pub struct EntryView {
    pub timestamp: (i64, u32),
    pub message: SMsgView,
}

/// The text of an entry: the time as `Debug` prints it, a blank line, and
/// the message in hexadecimal lines.
pub open spec fn entry_text(e: EntryView) -> Seq<char> {
    timestamp_debug(e.timestamp.0, e.timestamp.1) + "\n\n"@ + hex_string_of(e.message)
}

/// The pieces of an entry's text around blank lines.
pub open spec fn entry_parts(text: Seq<char>) -> Seq<Seq<char>> {
    split(text, "\n\n"@)
}

/// Text that `Entry::from_string` reads: a time that parses, a blank line,
/// and a message that `SMsg::from_hex_string` reads. Anything after a
/// further blank line is ignored.
pub open spec fn entry_readable(text: Seq<char>) -> bool {
    &&& entry_parts(text).len() >= 2
    &&& timestamp_parse(entry_parts(text)[0]) is Some
    &&& hex_string_ok(entry_parts(text)[1])
}

/// The entry that readable text stands for.
pub open spec fn entry_of_text(text: Seq<char>) -> EntryView {
    EntryView {
        timestamp: timestamp_parse(entry_parts(text)[0])->0,
        message: from_hex_string_view(entry_parts(text)[1]),
    }
}

/// The text of an entry splits at its one blank line into the time and the
/// message.
proof fn lemma_entry_text_parts(t: Seq<char>, m: SMsgView)
    requires
        no_newline(t),
        well_formed(m),
    ensures
        entry_parts(t + "\n\n"@ + hex_string_of(m)) == seq![t, hex_string_of(m)],
{
    reveal_strlit("\n\n");
    let p = "\n\n"@;
    let h = hex_string_of(m);
    let s = t + p + h;
    assert forall|i: int| 0 <= i < t.len() implies !matches_at(s, p, i) by {
        if matches_at(s, p, i) {
            assert(s.subrange(i, i + 2)[0] == s[i]);
            assert(s[i] == t[i]);
        }
    }
    lemma_split_cons(t, p, h);
    lemma_hex_string_no_blank(m);
    assert forall|i: int| 0 <= i implies !matches_at(h, p, i) by {
        if matches_at(h, p, i) {
            assert(h.subrange(i, i + 2)[0] == h[i]);
            assert(h.subrange(i, i + 2)[1] == h[i + 1]);
            assert(blank_at(h, i));
        }
    }
    lemma_split_single(h, p);
}

/// The text of an entry is not empty, neither begins nor ends with a line
/// break, holds no `e`, and holds no two blank lines in a row.
pub proof fn lemma_entry_text_shape(e: EntryView)
    requires
        date_text_shape(timestamp_debug(e.timestamp.0, e.timestamp.1)),
        well_formed(e.message),
    ensures
        entry_text(e).len() > 0,
        entry_text(e)[0] != '\n',
        entry_text(e).last() != '\n',
        lacks(entry_text(e), 'e'),
        free_of(entry_text(e), "\n\n\n"@),
{
    reveal_strlit("\n\n");
    reveal_strlit("\n\n\n");
    let t = timestamp_debug(e.timestamp.0, e.timestamp.1);
    let h = hex_string_of(e.message);
    let s = entry_text(e);
    lemma_hex_string_shape(e.message);
    lemma_hex_string_no_blank(e.message);
    assert(s == t + "\n\n"@ + h);
    assert(s.last() == h.last());
    assert(s[0] == t[0]);
    assert forall|i: int| 0 <= i < s.len() implies s[i] != 'e' by {
        if i < t.len() {
            assert(s[i] == t[i]);
            assert(date_char(t[i]));
        } else if i >= t.len() + 2 {
            assert(s[i] == h[i - t.len() - 2]);
        }
    }
    let p = "\n\n\n"@;
    assert forall|i: int| !#[trigger] matches_at(s, p, i) by {
        if matches_at(s, p, i) {
            assert(s.subrange(i, i + 3)[0] == s[i]);
            assert(s.subrange(i, i + 3)[1] == s[i + 1]);
            assert(s.subrange(i, i + 3)[2] == s[i + 2]);
            if i < t.len() {
                assert(s[i] == t[i]);
                assert(date_char(t[i]));
            } else if i == t.len() {
                assert(s[i + 2] == h[0]);
            } else if i == t.len() + 1 {
                assert(s[i + 1] == h[0]);
            } else {
                let j = i - t.len() - 2;
                assert(s[i] == h[j]);
                assert(s[i + 1] == h[j + 1]);
                assert(blank_at(h, j));
            }
        }
    }
}

/// The text of an entry reads back as the same entry, where the time's text has the shape of a date and parses back to the
/// time.
pub proof fn lemma_entry_text_reads(e: EntryView)
    requires
        date_text_shape(timestamp_debug(e.timestamp.0, e.timestamp.1)),
        timestamp_parse(timestamp_debug(e.timestamp.0, e.timestamp.1)) == Some(e.timestamp),
        well_formed(e.message),
        e.message.data.len() >= 1,
    ensures
        entry_readable(entry_text(e)),
        entry_of_text(entry_text(e)) == e,
{
    lemma_entry_text_parts(timestamp_debug(e.timestamp.0, e.timestamp.1), e.message);
    law_hex_string_roundtrip(e.message);
}

// String form for Entry:
// <timestamp>\n\n<message>\n\n\n
#[derive(Debug)]
pub struct Entry {
    timestamp: Timestamp,
    message: SMsg,
}

impl View for Entry {
    type V = EntryView;

    closed spec fn view(&self) -> EntryView {
        EntryView { timestamp: self.timestamp@, message: self.message@ }
    }
}

impl Clone for Entry {
    fn clone(&self) -> (r: Self)
        ensures
            r@ == self@,
    {
        Entry { timestamp: self.timestamp, message: self.message.clone() }
    }
}

impl Entry {
    /// Creates a new [Entry]
    ///
    /// Assumes that 'message' is already encrypted,
    /// otherwise it may be saved in plain text.
    pub fn new(message: SMsg) -> (r: Entry)
        ensures
            r@.message == message@,
    {
        Entry { timestamp: Timestamp::now(), message }
    }

    /// An entry with a given time.
    pub fn with_timestamp(timestamp: Timestamp, message: SMsg) -> (r: Entry)
        ensures
            r@ == (EntryView { timestamp: timestamp@, message: message@ }),
    {
        Entry { timestamp, message }
    }

    /// Returns a new Entry containing the same timestamp is this one
    pub fn just_date(&self) -> (r: Entry)
        ensures
            r@ == (EntryView {
                timestamp: self@.timestamp,
                message: SMsgView { check: zero_block(), data: seq![] },
            }),
    {
        let empty = String::new();
        let message = SMsg::new::<String>(&empty);
        proof {
            assert(vstd::utf8::encode_utf8(empty@) =~= Seq::<u8>::empty()) by {
                assert(empty@ =~= Seq::<char>::empty());
            }
            assert(crate::smsg::chunk_blocks(Seq::<u8>::empty()) =~= Seq::<Seq<u8>>::empty());
        }
        Entry { timestamp: self.timestamp, message }
    }

    pub fn get_timestamp(&self) -> (r: &Timestamp)
        ensures
            r@ == self@.timestamp,
    {
        &self.timestamp
    }

    /// Clones and returns the [SMsg]
    pub fn get_message(&self) -> (r: SMsg)
        ensures
            r@ == self@.message,
    {
        self.message.clone()
    }

    /// The entry as text: its time, a blank line, and its message.
    /// `from_string` reads this text back as the same entry when the
    /// message has a data block.
    pub fn to_string(&self) -> (r: String)
        ensures
            r@ == entry_text(self@),
            date_text_shape(timestamp_debug(self@.timestamp.0, self@.timestamp.1)),
            timestamp_parse(timestamp_debug(self@.timestamp.0, self@.timestamp.1)) == Some(
                self@.timestamp,
            ),
            well_formed(self@.message),
            self@.message.data.len() >= 1 ==> entry_readable(r@) && entry_of_text(r@) == self@,
    {
        let t = self.timestamp.debug_string();
        proof {
            crate::smsg::lemma_smsg_well_formed(self.message);
            if self@.message.data.len() >= 1 {
                lemma_entry_text_reads(self@);
            }
        }
        let mut out = chars_of(t.as_str());
        let sep = chars_of("\n\n");
        proof {
            reveal_strlit("\n\n");
        }
        append_chars(&mut out, sep.as_slice());
        let m = self.message.to_hex_string();
        let mc = chars_of(m.as_str());
        append_chars(&mut out, mc.as_slice());
        string_from_chars(out.as_slice())
    }

    /// Reads an entry from text, or `None` where `from_string` would panic.
    pub fn try_from_string(string: &str) -> (r: Option<Entry>)
        ensures
            r is Some <==> entry_readable(string@),
            r matches Some(e) ==> e@ == entry_of_text(string@),
    {
        let cs = chars_of(string);
        let sep = chars_of("\n\n");
        proof {
            reveal_strlit("\n\n");
        }
        let parts = split_chars(cs.as_slice(), sep.as_slice());
        if parts.len() < 2 {
            return None;
        }
        assert(views(parts@)[0] == parts@[0]@);
        assert(views(parts@)[1] == parts@[1]@);
        let ts_text = string_from_chars(parts[0].as_slice());
        let timestamp = match Timestamp::parse(ts_text.as_str()) {
            Some(t) => t,
            None => return None,
        };
        let msg_text = string_from_chars(parts[1].as_slice());
        if !crate::smsg::is_hex_string(msg_text.as_str()) {
            return None;
        }
        let message = SMsg::from_hex_string(msg_text.as_str());
        Some(Entry { timestamp, message })
    }
}

impl FromString for Entry {
    open spec fn readable(text: Seq<char>) -> bool {
        entry_readable(text)
    }

    open spec fn read_as(text: Seq<char>, v: Self) -> bool {
        v@ == entry_of_text(text)
    }

    fn from_string(string: &str) -> (r: Self) {
        match Entry::try_from_string(string) {
            Some(e) => e,
            None => {
                assert(false);
                Entry::new(SMsg::new::<String>(&String::new()))
            },
        }
    }
}

} // verus!
