use vstd::prelude::*;
use vstd::string::StringExecFns;
use crate::entry::{
    entry_of_text, entry_readable, entry_text, lemma_entry_text_reads,
    lemma_entry_text_shape, Entry, EntryView,
};
use crate::smsg::{
    law_hex_one_line_roundtrip, lemma_hex_one_line_plain, well_formed, zero_block, cypher_view, from_hex_one_line_view, hex_lines, hex_one_line_of, is_hex_one_line, with_breaks,
    SMsg, SMsgView,
};
use crate::text::{
    free_of, lacks, lemma_join_with_lacks, lemma_split_cons, lemma_split_join, lemma_split_single,
    matches_at, append_chars, chars_of, decimal, decimal_chars, join_path, join_path_chars, join_with,
    lemma_split_nonempty, split, split_chars, string_from_chars, views,
};
use crate::timestamp::{date_text_shape, timestamp_debug, timestamp_parse};
use crate::user_info::{text_message, user_hash, UserInfo};
use crate::FromString;

verus! {

/// What an [EntryFile] holds: the encrypted name and the entries, oldest
/// first.
pub struct EntryFileView {
    pub name: SMsgView,
    pub entries: Seq<EntryView>,
}

/// A name encrypted for a user: the name's message run through the cipher
/// with the user's hash.
pub open spec fn encrypted_name(user: &UserInfo, name: Seq<char>) -> SMsgView {
    cypher_view(text_message(name), user_hash(user.spec_username(), user.spec_password_hash()))
}

/// The text of an entry file: the name as one line of hexadecimal, `"\ne\n"`,
/// then the entries separated by two blank lines.
pub open spec fn entry_file_text(f: EntryFileView) -> Seq<char> {
    hex_one_line_of(f.name) + "\ne\n"@ + join_with(
        f.entries.map_values(|e: EntryView| entry_text(e)),
        "\n\n\n"@,
    )
}

/// The two halves of an entry file's text.
pub open spec fn file_parts(text: Seq<char>) -> Seq<Seq<char>> {
    split(text, "\ne\n"@)
}

/// The texts of the entries of an entry file.
pub open spec fn entry_texts(text: Seq<char>) -> Seq<Seq<char>> {
    split(file_parts(text)[1], "\n\n\n"@)
}

/// Text that `EntryFile::from_string` reads: a name that
/// `SMsg::from_hex_string_one_line` reads, `"\ne\n"`, and entries that each
/// parse.
pub open spec fn entry_file_readable(text: Seq<char>) -> bool {
    &&& file_parts(text).len() >= 2
    &&& hex_lines(with_breaks(file_parts(text)[0]))
    &&& forall|i: int| 0 <= i < entry_texts(text).len() ==> entry_readable(#[trigger] entry_texts(text)[i])
}

/// The entry file that readable text stands for.
pub open spec fn entry_file_of_text(text: Seq<char>) -> EntryFileView {
    EntryFileView {
        name: from_hex_one_line_view(file_parts(text)[0]),
        entries: entry_texts(text).map_values(|t: Seq<char>| entry_of_text(t)),
    }
}

/// The entries as their views.
pub open spec fn entries_view(v: Seq<Entry>) -> Seq<EntryView> {
    v.map_values(|e: Entry| e@)
}

/// The message that removing entry `i` (counted from the latest) gives.
pub open spec fn remove_error(len: nat, i: nat) -> Option<Seq<char>> {
    if i >= len {
        Some("Index '"@ + decimal(i) + "' out of range"@)
    } else if len == 1 {
        Some("Cannot remove last entry"@)
    } else {
        None
    }
}

/// What is known of an entry's text once it has been written: the time's
/// text has the shape of a date and parses back to the time, and the
/// message is made of blocks.
pub open spec fn entry_text_ok(e: EntryView) -> bool {
    &&& date_text_shape(timestamp_debug(e.timestamp.0, e.timestamp.1))
    &&& timestamp_parse(timestamp_debug(e.timestamp.0, e.timestamp.1)) == Some(e.timestamp)
    &&& well_formed(e.message)
}

/// A file whose text reads back: a name of one or two blocks (up to 128
/// bytes of name) and entries that each have data.
pub open spec fn file_text_safe(f: EntryFileView) -> bool {
    &&& 1 <= f.name.data.len() <= 2
    &&& forall|k: int| 0 <= k < f.entries.len() ==> (#[trigger] f.entries[k]).message.data.len() >= 1
}

/// What reading an entry file's text gives back: the name's data blocks
/// (the one-line form carries no check block), and the same entries.
pub open spec fn file_read_back(f: EntryFileView) -> EntryFileView {
    EntryFileView {
        name: SMsgView { check: zero_block(), data: f.name.data },
        entries: f.entries,
    }
}

/// The text of an entry file reads back as `file_read_back` of it.
proof fn lemma_file_text_reads(f: EntryFileView)
    requires
        f.entries.len() >= 1,
        file_text_safe(f),
        well_formed(f.name),
        forall|k: int| 0 <= k < f.entries.len() ==> entry_text_ok(#[trigger] f.entries[k]),
    ensures
        entry_file_readable(entry_file_text(f)),
        entry_file_of_text(entry_file_text(f)) == file_read_back(f),
{
    reveal_strlit("\ne\n");
    reveal_strlit("\n\n\n");
    let q = "\ne\n"@;
    let p = "\n\n\n"@;
    let texts = f.entries.map_values(|e: EntryView| entry_text(e));
    let n = hex_one_line_of(f.name);
    let b = join_with(texts, p);
    let text = entry_file_text(f);
    assert(text == n + q + b);
    assert forall|k: int| 0 <= k < texts.len() implies (#[trigger] texts[k]).len() > 0
        && texts[k].last() != '\n' && free_of(texts[k], p) && lacks(texts[k], 'e')
        && entry_readable(texts[k]) && entry_of_text(texts[k]) == f.entries[k] by {
        assert(entry_text_ok(f.entries[k]));
        assert(f.entries[k].message.data.len() >= 1);
        lemma_entry_text_shape(f.entries[k]);
        lemma_entry_text_reads(f.entries[k]);
    }
    // the name line and the body
    lemma_hex_one_line_plain(f.name);
    assert forall|i: int| 0 <= i < n.len() implies !matches_at(text, q, i) by {
        if matches_at(text, q, i) {
            assert(text.subrange(i, i + 3)[0] == text[i]);
            assert(text[i] == n[i]);
        }
    }
    lemma_split_cons(n, q, b);
    assert forall|k: int| 0 <= k < texts.len() implies lacks(#[trigger] texts[k], 'e') by {}
    lemma_join_with_lacks(texts, p, 'e');
    assert forall|i: int| 0 <= i implies !matches_at(b, q, i) by {
        if matches_at(b, q, i) {
            assert(b.subrange(i, i + 3)[1] == b[i + 1]);
        }
    }
    lemma_split_single(b, q);
    assert(file_parts(text) == seq![n, b]);
    // the entries
    assert forall|k: int| 0 <= k < texts.len() implies (#[trigger] texts[k]).len() > 0
        && texts[k].last() != '\n' && free_of(texts[k], p) by {}
    lemma_split_join(texts, p, '\n');
    assert(entry_texts(text) == texts);
    law_hex_one_line_roundtrip(f.name);
    assert(entry_file_of_text(text).entries =~= file_read_back(f).entries);
}

/// Represents a Single [Entry] and all its backups from a file
#[derive(Debug)]
pub struct EntryFile {
    name: SMsg,  // This should always be stored in encrypted form
    entries: Vec<Entry>,
}

impl View for EntryFile {
    type V = EntryFileView;

    closed spec fn view(&self) -> EntryFileView {
        EntryFileView { name: self.name@, entries: entries_view(self.entries@) }
    }
}

impl EntryFile {
    /// An entry file always holds at least one entry.
    pub open spec fn wf(&self) -> bool {
        self@.entries.len() >= 1
    }

    pub fn new(user_info: &UserInfo, name: &str, entry: Entry) -> (r: EntryFile)
        ensures
            r@ == (EntryFileView { name: encrypted_name(user_info, name@), entries: seq![entry@] }),
    {
        let name = encrypt_name(user_info, name);
        let entries = vec![entry];
        assert(entries_view(entries@) =~= seq![entry@]);
        EntryFile { name, entries }
    }

    /// Changes the name field to the given name encrypted by the given [UserInfo]
    pub fn rename(&mut self, user_info: &UserInfo, name: &str)
        requires
            old(self).wf(),
        ensures
            final(self).wf(),
            final(self)@ == (EntryFileView {
                name: encrypted_name(user_info, name@),
                entries: old(self)@.entries,
            }),
    {
        let name = encrypt_name(user_info, name);
        self.name = name;
    }

    /// Adds a new [Entry] to the [EntryFile]
    pub fn add(&mut self, entry: Entry)
        requires
            old(self).wf(),
        ensures
            final(self).wf(),
            final(self)@ == (EntryFileView {
                name: old(self)@.name,
                entries: old(self)@.entries.push(entry@),
            }),
    {
        let ghost before = self.entries@;
        self.entries.push(entry);
        assert(entries_view(self.entries@) =~= entries_view(before).push(entry@));
    }

    /// Removes the ith [Entry] from the latest
    ///
    /// Does NOT remove the last [Entry]
    pub fn remove(&mut self, i: usize) -> (r: Result<(), String>)
        requires
            old(self).wf(),
        ensures
            final(self).wf(),
            match r {
                Ok(()) => remove_error(old(self)@.entries.len(), i as nat) is None && final(self)@
                    == (EntryFileView {
                    name: old(self)@.name,
                    entries: old(self)@.entries.remove(old(self)@.entries.len() - 1 - i),
                }),
                Err(e) => remove_error(old(self)@.entries.len(), i as nat) == Some(e@)
                    && final(self)@ == old(self)@,
            },
    {
        if i >= self.len() {
            let mut msg = chars_of("Index '");
            let num = decimal_chars(i as u64);
            append_chars(&mut msg, num.as_slice());
            let tail = chars_of("' out of range");
            append_chars(&mut msg, tail.as_slice());
            return Err(string_from_chars(msg.as_slice()));
        }
        let n = self.entries.len();
        if n == 1 {
            return Err(String::from_str("Cannot remove last entry"));
        }
        let ghost before = self.entries@;
        let idx = n - 1 - i;
        self.entries.remove(idx);
        assert(entries_view(self.entries@) =~= entries_view(before).remove(idx as int));
        Ok(())
    }

    pub fn len(&self) -> (r: usize)
        ensures
            r == self@.entries.len(),
    {
        self.entries.len()
    }

    /// Returns a copy of the name field in the [EntryFile]
    pub fn get_name(&self) -> (r: &SMsg)
        ensures
            r@ == self@.name,
    {
        &self.name
    }

    /// Gets the ith [Entry] from the latest
    pub fn get(&self, i: usize) -> (r: Option<Entry>)
        ensures
            i < self@.entries.len() ==> (r matches Some(e) && e@ == self@.entries[self@.entries.len()
                - 1 - i]),
            i >= self@.entries.len() ==> r is None,
    {
        if i >= self.len() {
            return None;
        }
        let n = self.entries.len();
        let e = self.entries[n - 1 - i].clone();
        Some(e)
    }

    /// Returns a vec of [Entry]ies that have the same dates as the ones
    /// in this [EntryFile] but without the data
    pub fn dates(&self) -> (r: Vec<Entry>)
        ensures
            r@.len() == self@.entries.len(),
            forall|k: int|
                0 <= k < r@.len() ==> (#[trigger] r@[k])@ == (EntryView {
                    timestamp: self@.entries[self@.entries.len() - 1 - k].timestamp,
                    message: SMsgView { check: crate::smsg::zero_block(), data: seq![] },
                }),
    {
        let n = self.entries.len();
        let mut vec: Vec<Entry> = Vec::new();
        let mut i: usize = 0;
        while i < n
            invariant
                n == self.entries@.len(),
                i <= n,
                vec@.len() == i,
                forall|k: int|
                    0 <= k < i ==> (#[trigger] vec@[k])@ == (EntryView {
                        timestamp: self.entries@[k]@.timestamp,
                        message: SMsgView { check: crate::smsg::zero_block(), data: seq![] },
                    }),
            decreases n - i,
        {
            vec.push(self.entries[i].just_date());
            i += 1;
        }
        let mut out: Vec<Entry> = Vec::new();
        let mut j: usize = n;
        while j > 0
            invariant
                n == self.entries@.len(),
                j <= n,
                vec@.len() == n,
                out@.len() == n - j,
                forall|k: int|
                    0 <= k < n ==> (#[trigger] vec@[k])@ == (EntryView {
                        timestamp: self.entries@[k]@.timestamp,
                        message: SMsgView { check: crate::smsg::zero_block(), data: seq![] },
                    }),
                forall|k: int| 0 <= k < n - j ==> (#[trigger] out@[k])@ == vec@[n - 1 - k]@,
            decreases j,
        {
            j -= 1;
            out.push(vec[j].clone());
        }
        out
    }

    /// The path of this file: its name as one line of hexadecimal, in the
    /// user's directory under `base`.
    pub fn get_path(&self, user_info: &UserInfo, base: &str) -> (r: String)
        ensures
            r@ == join_path(
                join_path(base@, user_hash(user_info.spec_username(), user_info.spec_password_hash())),
                hex_one_line_of(self@.name),
            ),
    {
        let dir = user_info.user_path(base);
        let d = chars_of(dir.as_str());
        let name = self.name.to_hex_string_one_line();
        let nc = chars_of(name.as_str());
        let p = join_path_chars(d.as_slice(), nc.as_slice());
        string_from_chars(p.as_slice())
    }

    /// The file as text: the name, `"\ne\n"`, then the entries, oldest first,
    /// separated by two blank lines.
    /// `from_string` reads this text back as `file_read_back` of the file
    /// where the name has one or two blocks and every entry has data
    /// (`file_text_safe`).
    pub fn to_string(&self) -> (r: String)
        requires
            self.wf(),
        ensures
            r@ == entry_file_text(self@),
            file_text_safe(self@) ==> entry_file_readable(r@) && entry_file_of_text(r@)
                == file_read_back(self@),
    {
        proof {
            reveal_strlit("\ne\n");
            reveal_strlit("\n\n\n");
        }
        let name = self.name.to_hex_string_one_line();
        let mut out = chars_of(name.as_str());
        let mid = chars_of("\ne\n");
        append_chars(&mut out, mid.as_slice());
        let ghost texts = self@.entries.map_values(|e: EntryView| entry_text(e));
        let first = self.entries[0].to_string();
        assert(self@.entries[0] == self.entries@[0]@);
        let fc = chars_of(first.as_str());
        let mut body = fc;
        let sep = chars_of("\n\n\n");
        let mut i: usize = 1;
        assert(texts.take(1) =~= seq![texts[0]]);
        while i < self.entries.len()
            invariant
                1 <= i <= self.entries@.len(),
                sep@ == "\n\n\n"@,
                texts == self@.entries.map_values(|e: EntryView| entry_text(e)),
                body@ == join_with(texts.take(i as int), "\n\n\n"@),
                forall|k: int| 0 <= k < i ==> entry_text_ok(#[trigger] self@.entries[k]),
            decreases self.entries@.len() - i,
        {
            append_chars(&mut body, sep.as_slice());
            let t = self.entries[i].to_string();
            assert(self@.entries[i as int] == self.entries@[i as int]@);
            let tc = chars_of(t.as_str());
            append_chars(&mut body, tc.as_slice());
            assert(texts.take(i + 1).drop_last() =~= texts.take(i as int));
            assert(texts[i as int] == tc@);
            i += 1;
        }
        assert(texts.take(i as int) =~= texts);
        append_chars(&mut out, body.as_slice());
        proof {
            crate::smsg::lemma_smsg_well_formed(self.name);
            if file_text_safe(self@) {
                lemma_file_text_reads(self@);
            }
        }
        string_from_chars(out.as_slice())
    }

    /// Reads an entry file from text, or `None` where `from_string` would
    /// panic.
    pub fn try_from_string(string: &str) -> (r: Option<EntryFile>)
        ensures
            r is Some <==> entry_file_readable(string@),
            r matches Some(f) ==> f@ == entry_file_of_text(string@) && f.wf(),
    {
        proof {
            reveal_strlit("\ne\n");
            reveal_strlit("\n\n\n");
        }
        let cs = chars_of(string);
        let esep = chars_of("\ne\n");
        let halves = split_chars(cs.as_slice(), esep.as_slice());
        if halves.len() < 2 {
            return None;
        }
        assert(views(halves@)[0] == halves@[0]@);
        assert(views(halves@)[1] == halves@[1]@);
        let name_text = string_from_chars(halves[0].as_slice());
        if !is_hex_one_line(name_text.as_str()) {
            return None;
        }
        let name = SMsg::from_hex_string_one_line(name_text.as_str());
        let sep = chars_of("\n\n\n");
        let pieces = split_chars(halves[1].as_slice(), sep.as_slice());
        proof {
            lemma_split_nonempty(halves@[1]@, sep@);
        }
        let ghost texts = entry_texts(string@);
        let mut entries: Vec<Entry> = Vec::new();
        let mut i: usize = 0;
        while i < pieces.len()
            invariant
                views(pieces@) == texts,
                texts == entry_texts(string@),
                i <= pieces@.len(),
                entries@.len() == i,
                forall|k: int| 0 <= k < i ==> entry_readable(#[trigger] texts[k]),
                forall|k: int| 0 <= k < i ==> (#[trigger] entries@[k])@ == entry_of_text(texts[k]),
            decreases pieces@.len() - i,
        {
            assert(views(pieces@)[i as int] == pieces@[i as int]@);
            let text = string_from_chars(pieces[i].as_slice());
            match Entry::try_from_string(text.as_str()) {
                Some(e) => entries.push(e),
                None => return None,
            }
            i += 1;
        }
        assert(entries_view(entries@) =~= texts.map_values(|t: Seq<char>| entry_of_text(t)));
        assert(entries@.len() >= 1);
        Some(EntryFile { name, entries })
    }
}

impl FromString for EntryFile {
    open spec fn readable(text: Seq<char>) -> bool {
        entry_file_readable(text)
    }

    open spec fn read_as(text: Seq<char>, v: Self) -> bool {
        v@ == entry_file_of_text(text) && v.wf()
    }

    fn from_string(string: &str) -> (r: Self) {
        match EntryFile::try_from_string(string) {
            Some(f) => f,
            None => {
                assert(false);
                let entry = Entry::new(SMsg::new::<String>(&String::new()));
                EntryFile { name: SMsg::new::<String>(&String::new()), entries: vec![entry] }
            },
        }
    }
}

/// A name as a message encrypted with the user's hash.
fn encrypt_name(user_info: &UserInfo, name: &str) -> (r: SMsg)
    ensures
        r@ == encrypted_name(user_info, name@),
{
    let s = String::from_str(name);
    let mut msg = SMsg::new::<String>(&s);
    let h = user_info.hash();
    msg.encrypt(h.as_str());
    msg
}

/// The file name under which a user's entry file of a given name is stored:
/// the name encrypted with the user's hash, as one line of hexadecimal.
pub fn entry_file_name(user_info: &UserInfo, name: &str) -> (r: String)
    ensures
        r@ == hex_one_line_of(encrypted_name(user_info, name@)),
{
    let msg = encrypt_name(user_info, name);
    msg.to_hex_string_one_line()
}

} // verus!
