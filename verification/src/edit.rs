use vstd::prelude::*;
use vstd::string::StringExecFns;
use vstd::utf8::encode_utf8;
use crate::text::{
    find_from, is_whitespace, lacks, lemma_find_from_bounds, lemma_join_with_front,
    lemma_lines_cons, lemma_lines_single, matches_at, no_newline, strip_cr, trim_end,
    append_chars, chars_of, join_with, lines, lines_chars, string_from_chars, trim, trim_chars,
    views,
};

verus! {

/// What an [Edit] holds: its lines, the current line, and how many bytes of
/// text are shown on the terminal's current line.
pub struct EditView {
    pub data: Seq<Seq<char>>,
    pub line: nat,
    pub line_length: nat,
}

/// The keys that the editor reacts to.
#[derive(Debug, Clone, Copy, PartialEq, Eq, Structural)]
pub enum EditKey {
    Escape,
    Up,
    Down,
    Space,
    Right,
    Left,
    Other,
}

/// What the terminal should do after a key.
#[derive(Debug)]
pub enum EditAction {
    /// Blank out this many characters of the shown line and stop editing.
    Stop(usize),
    /// Blank out this many characters of the shown line and show this line.
    Show(usize, String),
    /// Read a replacement for the current line.
    ReadLine,
    /// Nothing to show.
    Nothing,
}

/// What an [EditAction] holds.
pub enum EditActionView {
    Stop(nat),
    Show(nat, Seq<char>),
    ReadLine,
    Nothing,
}

impl View for EditAction {
    type V = EditActionView;

    open spec fn view(&self) -> EditActionView {
        match self {
            EditAction::Stop(n) => EditActionView::Stop(*n as nat),
            EditAction::Show(n, s) => EditActionView::Show(*n as nat, s@),
            EditAction::ReadLine => EditActionView::ReadLine,
            EditAction::Nothing => EditActionView::Nothing,
        }
    }
}

/// The lines of an editor as one text: joined by newlines (or "No Data"
/// when there are none), then trimmed.
pub open spec fn edit_text(data: Seq<Seq<char>>) -> Seq<char> {
    trim(
        if data.len() == 0 {
            "No Data"@
        } else {
            join_with(data, "\n"@)
        },
    )
}

/// The current line's text, or "No Data" when there is no such line.
pub open spec fn line_text(e: EditView) -> Seq<char> {
    if e.line < e.data.len() {
        e.data[e.line as int]
    } else {
        "No Data"@
    }
}

/// The line above the current one, wrapping to the last line.
pub open spec fn line_up(e: EditView) -> nat {
    if e.line == 0 {
        (e.data.len() - 1) as nat
    } else {
        (e.line - 1) as nat
    }
}

/// The line below the current one, wrapping to the first line.
pub open spec fn line_down(e: EditView) -> nat {
    if e.line >= e.data.len() - 1 {
        0
    } else {
        e.line + 1
    }
}

/// The editor after moving to line `line` and showing it.
pub open spec fn moved(e: EditView, line: nat) -> EditView {
    let m = EditView { data: e.data, line, line_length: e.line_length };
    EditView { data: e.data, line, line_length: encode_utf8(line_text(m)).len() }
}

/// What a key does: the editor afterwards, and what the terminal shows.
pub open spec fn key_step(e: EditView, key: EditKey) -> (EditView, EditActionView) {
    match key {
        EditKey::Escape => (e, EditActionView::Stop(e.line_length)),
        EditKey::Up => (moved(e, line_up(e)), EditActionView::Show(e.line_length, line_text(moved(e, line_up(e))))),
        EditKey::Down => (moved(e, line_down(e)), EditActionView::Show(e.line_length, line_text(moved(e, line_down(e))))),
        EditKey::Space => (e, EditActionView::ReadLine),
        EditKey::Right => (EditView { data: e.data.push(seq![]), line: e.line, line_length: e.line_length }, EditActionView::Nothing),
        EditKey::Left => if e.data.len() > 1 {
            let removed = EditView { data: e.data.remove(e.line as int), line: e.line, line_length: e.line_length };
            (moved(removed, line_up(removed)), EditActionView::Show(e.line_length, line_text(moved(removed, line_up(removed)))))
        } else {
            (e, EditActionView::Nothing)
        },
        EditKey::Other => (e, EditActionView::Nothing),
    }
}

pub struct Edit {
    data: Vec<String>,
    line: usize,
    line_length: usize,
}

/// The text of each string.
pub open spec fn strings_view(v: Seq<String>) -> Seq<Seq<char>> {
    v.map_values(|s: String| s@)
}

impl View for Edit {
    type V = EditView;

    closed spec fn view(&self) -> EditView {
        EditView {
            data: strings_view(self.data@),
            line: self.line as nat,
            line_length: self.line_length as nat,
        }
    }
}

impl Edit {
    /// The current line is a line of the editor, or the first position when
    /// there are no lines.
    pub open spec fn wf(&self) -> bool {
        if self@.data.len() == 0 {
            self@.line == 0
        } else {
            self@.line < self@.data.len()
        }
    }

    pub fn new() -> (r: Edit)
        ensures
            r@ == (EditView { data: seq![], line: 0, line_length: 0 }),
            r.wf(),
    {
        let r = Edit { data: Vec::new(), line: 0, line_length: 0 };
        assert(r@.data =~= Seq::<Seq<char>>::empty());
        r
    }

    pub fn from_string(data: String) -> (r: Edit)
        ensures
            r@ == (EditView { data: lines(data@), line: 0, line_length: 0 }),
            r.wf(),
    {
        let cs = chars_of(data.as_str());
        let ls = lines_chars(cs.as_slice());
        let mut out: Vec<String> = Vec::new();
        let mut i: usize = 0;
        while i < ls.len()
            invariant
                i <= ls@.len(),
                strings_view(out@) == views(ls@).take(i as int),
            decreases ls@.len() - i,
        {
            let s = string_from_chars(ls[i].as_slice());
            let ghost before = out@;
            out.push(s);
            assert(strings_view(out@) =~= strings_view(before).push(s@));
            assert(views(ls@).take(i + 1) =~= views(ls@).take(i as int).push(ls@[i as int]@));
            i += 1;
        }
        assert(views(ls@).take(i as int) =~= views(ls@));
        Edit { data: out, line: 0, line_length: 0 }
    }

    /// Whether the editor has no lines.
    pub fn is_empty(&self) -> (r: bool)
        ensures
            r == (self@.data.len() == 0),
    {
        self.data.len() == 0
    }

    /// Returns the [String] contained in the [Edit]
    ///
    /// If [Edit] is empty returns "No Data"
    pub fn get(&self) -> (r: String)
        ensures
            r@ == edit_text(self@.data),
    {
        if self.data.len() == 0 {
            let nd = chars_of("No Data");
            let t = trim_chars(nd.as_slice());
            return string_from_chars(t.as_slice());
        }
        let ghost d = self@.data;
        let mut out = chars_of(self.data[0].as_str());
        let nl = chars_of("\n");
        let mut i: usize = 1;
        assert(d.take(1) =~= seq![d[0]]);
        while i < self.data.len()
            invariant
                d == strings_view(self.data@),
                1 <= i <= self.data@.len(),
                nl@ == "\n"@,
                out@ == join_with(d.take(i as int), "\n"@),
            decreases self.data@.len() - i,
        {
            append_chars(&mut out, nl.as_slice());
            let next = chars_of(self.data[i].as_str());
            append_chars(&mut out, next.as_slice());
            assert(d.take(i + 1).drop_last() =~= d.take(i as int));
            assert(d[i as int] == next@);
            i += 1;
        }
        assert(d.take(i as int) =~= d);
        let t = trim_chars(out.as_slice());
        string_from_chars(t.as_slice())
    }

    /// The current line's text, or "No Data".
    fn get_line(&self) -> (r: String)
        ensures
            r@ == line_text(self@),
    {
        if self.line < self.data.len() {
            let line = self.data[self.line].clone();
            line
        } else {
            String::from_str("No Data")
        }
    }

    /// Notes the width of the current line and returns it for showing.
    pub fn print_current_line(&mut self) -> (r: String)
        ensures
            final(self)@ == moved(old(self)@, old(self)@.line),
            r@ == line_text(old(self)@),
    {
        let line = self.get_line();
        self.line_length = line.as_str().as_bytes().len();
        line
    }

    fn up(&mut self) -> (r: EditAction)
        requires
            old(self)@.line <= old(self)@.data.len(),
            old(self)@.data.len() > 0,
        ensures
            final(self)@ == moved(old(self)@, line_up(old(self)@)),
            r@ == EditActionView::Show(old(self)@.line_length, line_text(final(self)@)),
            final(self).wf(),
    {
        let width = self.line_length;
        if self.line == 0 {
            self.line = self.data.len() - 1;
        } else {
            self.line -= 1;
        }
        let line = self.print_current_line();
        EditAction::Show(width, line)
    }

    fn down(&mut self) -> (r: EditAction)
        requires
            old(self).wf(),
            old(self)@.data.len() > 0,
        ensures
            final(self)@ == moved(old(self)@, line_down(old(self)@)),
            r@ == EditActionView::Show(old(self)@.line_length, line_text(final(self)@)),
            final(self).wf(),
    {
        let width = self.line_length;
        if self.line >= self.data.len() - 1 {
            self.line = 0;
        } else {
            self.line += 1;
        }
        let line = self.print_current_line();
        EditAction::Show(width, line)
    }

    /// Reacts to a key while editing. Moving between lines and reading a
    /// line need at least one line (the editor panics otherwise).
    pub fn handle_key(&mut self, key: EditKey) -> (r: EditAction)
        requires
            old(self).wf(),
            (key == EditKey::Up || key == EditKey::Down) ==> old(self)@.data.len() > 0,
        ensures
            (final(self)@, r@) == key_step(old(self)@, key),
            final(self).wf(),
    {
        match key {
            EditKey::Escape => EditAction::Stop(self.line_length),
            EditKey::Up => self.up(),
            EditKey::Down => self.down(),
            EditKey::Space => EditAction::ReadLine,
            EditKey::Right => {
                let ghost before = self.data@;
                self.data.push(String::new());
                assert(strings_view(self.data@) =~= strings_view(before).push(seq![]));
                EditAction::Nothing
            },
            EditKey::Left => {
                if self.data.len() > 1 {
                    let ghost before = self.data@;
                    self.data.remove(self.line);
                    assert(strings_view(self.data@) =~= strings_view(before).remove(
                        self.line as int,
                    ));
                    self.up()
                } else {
                    EditAction::Nothing
                }
            },
            EditKey::Other => EditAction::Nothing,
        }
    }

    /// Replaces the current line with a line read from the terminal
    /// (trimmed), and returns the new line for showing.
    pub fn edit_line(&mut self, buffer: &str) -> (r: String)
        requires
            old(self).wf(),
            old(self)@.data.len() > 0,
        ensures
            final(self)@ == moved(
                EditView {
                    data: old(self)@.data.update(old(self)@.line as int, trim(buffer@)),
                    line: old(self)@.line,
                    line_length: encode_utf8(buffer@).len(),
                },
                old(self)@.line,
            ),
            r@ == trim(buffer@),
            final(self).wf(),
    {
        self.line_length = buffer.as_bytes().len();
        let bc = chars_of(buffer);
        let t = trim_chars(bc.as_slice());
        let ghost before = self.data@;
        self.data.set(self.line, string_from_chars(t.as_slice()));
        assert(strings_view(self.data@) =~= strings_view(before).update(self.line as int, t@));
        self.print_current_line()
    }
}

} // verus!

verus! {

/// Moving up a line and then down again (or down and then up) comes back
/// to the same line of the same text, the moves wrapping around at either
/// end.
pub proof fn law_up_down_inverse(e: EditView)
    requires
        e.data.len() > 0,
        e.line < e.data.len(),
    ensures
        key_step(key_step(e, EditKey::Up).0, EditKey::Down).0.line == e.line,
        key_step(key_step(e, EditKey::Up).0, EditKey::Down).0.data == e.data,
        key_step(key_step(e, EditKey::Down).0, EditKey::Up).0.line == e.line,
        key_step(key_step(e, EditKey::Down).0, EditKey::Up).0.data == e.data,
{
}

} // verus!

verus! {

/// Joining the lines of a text (without carriage returns) with line
/// breaks gives the text back, less a final line break.
proof fn lemma_join_lines_back(s: Seq<char>)
    requires
        lacks(s, '\r'),
    ensures
        s.len() > 0 ==> lines(s).len() > 0,
        join_with(lines(s), seq!['\n']) == (if s.len() > 0 && s.last() == '\n' {
            s.drop_last()
        } else {
            s
        }),
    decreases s.len(),
{
    let nl = seq!['\n'];
    lemma_find_from_bounds(s, nl, 0);
    match find_from(s, nl, 0) {
        None => {
            assert(no_newline(s)) by {
                assert forall|i: int| 0 <= i < s.len() implies s[i] != '\n' by {
                    if s[i] == '\n' {
                        assert(s.subrange(i, i + 1) =~= nl);
                        assert(matches_at(s, nl, i));
                    }
                }
            }
            lemma_lines_single(s);
            if s.len() > 0 {
                assert(s.last() != '\n');
            } else {
                assert(lines(s) =~= Seq::<Seq<char>>::empty());
            }
        },
        Some(k) => {
            assert(s.subrange(k, k + 1)[0] == s[k]);
            let a = s.take(k);
            let rest = s.skip(k + 1);
            assert(s =~= a + nl + rest);
            assert(no_newline(a)) by {
                assert forall|i: int| 0 <= i < a.len() implies a[i] != '\n' by {
                    if a[i] == '\n' {
                        assert(s.subrange(i, i + 1) =~= nl);
                        assert(matches_at(s, nl, i));
                    }
                }
            }
            lemma_lines_cons(a, rest);
            assert(strip_cr(a) == a) by {
                if a.len() > 0 {
                    assert(a.last() == s[k - 1]);
                }
            }
            assert(lacks(rest, '\r')) by {
                assert forall|i: int| 0 <= i < rest.len() implies rest[i] != '\r' by {
                    assert(rest[i] == s[k + 1 + i]);
                }
            }
            lemma_join_lines_back(rest);
            let parts = seq![a] + lines(rest);
            assert(lines(s) == parts);
            if rest.len() == 0 {
                assert(lines(rest) =~= Seq::<Seq<char>>::empty()) by {
                    lemma_lines_single(rest);
                }
                assert(parts =~= seq![a]);
                assert(s.drop_last() =~= a);
            } else {
                lemma_join_with_front(parts, nl);
                assert(parts[0] == a);
                assert(parts.skip(1) =~= lines(rest));
                assert(s.last() == rest.last());
                if rest.last() == '\n' {
                    assert(s.drop_last() =~= a + nl + rest.drop_last());
                }
            }
        },
    }
}

/// A text read into the editor and taken back out gives the text trimmed
/// (where the text is not empty and holds no carriage return): `get` of
/// `from_string(s)` is `s.trim()`.
pub proof fn law_edit_text_roundtrip(s: Seq<char>)
    requires
        s.len() > 0,
        lacks(s, '\r'),
    ensures
        edit_text(lines(s)) == trim(s),
{
    reveal_strlit("\n");
    assert("\n"@ =~= seq!['\n']);
    lemma_join_lines_back(s);
    assert(lines(s).len() > 0);
    if s.last() == '\n' {
        assert(is_whitespace('\n'));
        assert(trim_end(s) == trim_end(s.drop_last()));
    }
}

} // verus!
