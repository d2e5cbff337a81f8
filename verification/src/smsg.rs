use vstd::prelude::*;
use vstd::string::StringExecFns;
use vstd::utf8::{decode_utf8, encode_utf8, valid_utf8};
use crate::block::{
    block_of_bytes, block_text_bytes, chars_are_valid_hex, hex_bytes, hex_digit, hex_upper,
    lemma_block_len, sha512, valid_hex, xor_bytes, Block512,
};
use crate::bytes::{concat_bytes, Bytes};
use crate::user_info::text_message;
use crate::text::{
    append_chars, chars_of, decimal, decimal_chars, is_whitespace, lemma_lines_cons, lemma_lines_single,
    lines, lines_chars, no_newline, string_from_chars, strip_cr,
    trim_end, trim_end_chars, utf8_lossy, views,
};

verus! {

broadcast use lemma_block_len;

/// What an [SMsg] holds: the check block and the data blocks, as bytes.
pub struct SMsgView {
    pub check: Seq<u8>,
    pub data: Seq<Seq<u8>>,
}

/// The bytes of each block.
pub open spec fn blocks_view(v: Seq<Block512>) -> Seq<Seq<u8>> {
    v.map_values(|b: Block512| b@)
}

/// The block of 64 zero bytes.
pub open spec fn zero_block() -> Seq<u8> {
    Seq::new(64, |i: int| 0u8)
}

/// Every block of a message view has 64 bytes.
pub open spec fn well_formed(m: SMsgView) -> bool {
    &&& m.check.len() == 64
    &&& forall|i: int| 0 <= i < m.data.len() ==> (#[trigger] m.data[i]).len() == 64
}

/// The number of 64-byte pieces that `n` bytes are cut into.
pub open spec fn chunk_count(n: nat) -> nat {
    if n == 0 {
        0
    } else {
        ((n - 1) / 64 + 1) as nat
    }
}

/// Bytes cut into consecutive 64-byte pieces, each made a block (the last
/// one padded when it is short).
pub open spec fn chunk_blocks(bytes: Seq<u8>) -> Seq<Seq<u8>> {
    Seq::new(
        chunk_count(bytes.len()),
        |k: int|
            block_of_bytes(
                bytes.subrange(
                    64 * k,
                    if 64 * k + 64 <= bytes.len() {
                        64 * k + 64
                    } else {
                        bytes.len() as int
                    },
                ),
            ),
    )
}

/// The block that a line of hexadecimal stands for.
pub open spec fn hex_block(line: Seq<char>) -> Seq<u8> {
    block_of_bytes(hex_bytes(line))
}

/// Every line of `s` is valid hexadecimal.
pub open spec fn hex_lines(s: Seq<char>) -> bool {
    forall|i: int| 0 <= i < lines(s).len() ==> valid_hex(#[trigger] lines(s)[i])
}

/// The blocks that the lines of `s` stand for, one per line.
pub open spec fn parse_blocks(s: Seq<char>) -> Seq<Seq<u8>> {
    lines(s).map_values(|l: Seq<char>| hex_block(l))
}

/// Character sequences joined end to end.
pub open spec fn concat_chars(parts: Seq<Seq<char>>) -> Seq<char>
    decreases parts.len(),
{
    if parts.len() == 0 {
        seq![]
    } else {
        concat_chars(parts.drop_last()) + parts.last()
    }
}

/// Character sequences joined by single newlines.
pub open spec fn join_lines(parts: Seq<Seq<char>>) -> Seq<char>
    decreases parts.len(),
{
    if parts.len() == 0 {
        seq![]
    } else if parts.len() == 1 {
        parts[0]
    } else {
        parts[0] + seq!['\n'] + join_lines(parts.skip(1))
    }
}

/// Adding a part at the end adds a line break and the part.
pub proof fn lemma_join_lines_push(parts: Seq<Seq<char>>, x: Seq<char>)
    requires
        parts.len() > 0,
    ensures
        join_lines(parts.push(x)) == join_lines(parts) + seq!['\n'] + x,
    decreases parts.len(),
{
    let p2 = parts.push(x);
    if parts.len() == 1 {
        assert(p2.skip(1) =~= seq![x]);
        assert(join_lines(seq![x]) == x);
        assert(join_lines(p2) == p2[0] + seq!['\n'] + join_lines(p2.skip(1)));
    } else {
        assert(p2.skip(1) =~= parts.skip(1).push(x));
        lemma_join_lines_push(parts.skip(1), x);
        assert(join_lines(p2) == p2[0] + seq!['\n'] + join_lines(p2.skip(1)));
        assert(join_lines(parts) == parts[0] + seq!['\n'] + join_lines(parts.skip(1)));
        assert(join_lines(p2) =~= join_lines(parts) + seq!['\n'] + x);
    }
}

/// What `from_hex_string` needs of its input: a check line and at least one
/// data line, every line valid hexadecimal.
pub open spec fn hex_string_ok(s: Seq<char>) -> bool {
    &&& lines(s).len() >= 2
    &&& hex_lines(s)
}

/// The message that `from_hex_string` reads from `s`: the first line is the
/// check block, and each later line is one data block.
pub open spec fn from_hex_string_view(s: Seq<char>) -> SMsgView {
    SMsgView { check: hex_block(lines(s)[0]), data: parse_blocks(s).skip(1) }
}

/// How many line breaks `from_hex_string_one_line` inserts into a string of
/// `n` characters: one for each multiple of 128 below `n`.
pub open spec fn break_count(n: nat) -> nat {
    if n <= 128 {
        0
    } else {
        ((n - 1) / 128) as nat
    }
}

/// `s` after inserting `'\n'` at positions `128 * j` for `j` from `k` to `n`,
/// one after another, each position counted in the string as it is at that
/// moment (so later breaks shift one place to the left of the plain
/// multiples of 128).
pub open spec fn insert_breaks(s: Seq<char>, k: nat, n: nat) -> Seq<char>
    decreases n + 1 - k,
{
    if k > n || k == 0 {
        s
    } else {
        insert_breaks(s.insert(128 * k as int, '\n'), k + 1, n)
    }
}

/// The text that `from_hex_string_one_line` splits into lines.
pub open spec fn with_breaks(s: Seq<char>) -> Seq<char> {
    insert_breaks(s, 1, break_count(s.len()))
}

/// The message that `from_hex_string_one_line` reads from `s`.
pub open spec fn from_hex_one_line_view(s: Seq<char>) -> SMsgView {
    SMsgView { check: zero_block(), data: parse_blocks(with_breaks(s)) }
}

/// The message as hexadecimal lines: the check block, then each data block.
pub open spec fn hex_string_of(m: SMsgView) -> Seq<char> {
    join_lines(seq![hex_upper(m.check)] + m.data.map_values(|b: Seq<u8>| hex_upper(b)))
}

/// The data blocks as one line of hexadecimal, or a fixed message when
/// there are none.
pub open spec fn hex_one_line_of(m: SMsgView) -> Seq<char> {
    if m.data.len() == 0 {
        "Failed hex string conversion"@
    } else {
        concat_chars(m.data.map_values(|b: Seq<u8>| hex_upper(b)))
    }
}

/// The plain text of the data blocks: each block without its padding,
/// decoded, and joined.
pub open spec fn utf8_text_of(m: SMsgView) -> Seq<char> {
    concat_chars(m.data.map_values(|b: Seq<u8>| utf8_lossy(block_text_bytes(b))))
}

/// Every data block, without its padding, is valid UTF-8.
pub open spec fn blocks_valid_utf8(m: SMsgView) -> bool {
    forall|k: int| 0 <= k < m.data.len() ==> valid_utf8(#[trigger] block_text_bytes(m.data[k]))
}

/// The text of the data blocks when each is valid UTF-8: each block
/// without its padding, decoded, and joined.
pub open spec fn decoded_text_of(m: SMsgView) -> Seq<char> {
    concat_chars(m.data.map_values(|b: Seq<u8>| decode_utf8(block_text_bytes(b))))
}

/// The key block for data block `i`: the hash of `i` in decimal followed by
/// the password.
pub open spec fn data_key(password: Seq<char>, i: nat) -> Seq<u8> {
    sha512(encode_utf8(decimal(i) + password))
}

/// The message after the cipher with `password`: the check block xored with
/// the hash of the password, and each data block xored with its own key.
pub open spec fn cypher_view(m: SMsgView, password: Seq<char>) -> SMsgView {
    SMsgView {
        check: xor_bytes(sha512(encode_utf8(password)), m.check),
        data: Seq::new(
            m.data.len(),
            |i: int| xor_bytes(data_key(password, i as nat), m.data[i]),
        ),
    }
}

#[derive(Debug)]
pub struct SMsg {
    check: Block512,
    data: Vec<Block512>,
}

impl View for SMsg {
    type V = SMsgView;

    closed spec fn view(&self) -> SMsgView {
        SMsgView { check: self.check@, data: blocks_view(self.data@) }
    }
}

/// Every message is made of 64-byte blocks.
pub broadcast proof fn lemma_smsg_well_formed(m: SMsg)
    ensures
        #[trigger] well_formed(m@),
{
}

impl Clone for SMsg {
    fn clone(&self) -> (res: Self)
        ensures
            res@ == self@,
    {
        let check = self.check.clone();
        let mut data: Vec<Block512> = Vec::new();
        let mut i: usize = 0;
        while i < self.data.len()
            invariant
                i <= self.data@.len(),
                blocks_view(data@) == blocks_view(self.data@).take(i as int),
            decreases self.data@.len() - i,
        {
            let c = self.data[i].clone();
            assert(c@ == self.data@[i as int]@);
            let ghost old_data = data@;
            data.push(c);
            assert(blocks_view(data@) =~= blocks_view(old_data).push(c@));
            assert(blocks_view(self.data@).take(i + 1) =~= blocks_view(self.data@).take(
                i as int,
            ).push(self.data@[i as int]@));
            i += 1;
        }
        assert(blocks_view(self.data@).take(i as int) =~= blocks_view(self.data@));
        SMsg { check, data }
    }
}

impl SMsg {
    pub fn len(&self) -> (r: usize)
        ensures
            r == self@.data.len(),
    {
        self.data.len()
    }

    /// Cuts bytes into blocks of 64.
    fn from_bytes(bytes: &[u8]) -> (r: Vec<Block512>)
        ensures
            blocks_view(r@) == chunk_blocks(bytes@),
    {
        let mut vector: Vec<Block512> = Vec::new();
        let mut i: usize = 0;
        while i < bytes.len()
            invariant
                i == 64 * vector@.len(),
                i <= bytes@.len(),
                vector@.len() <= chunk_count(bytes@.len()),
                forall|k: int|
                    0 <= k < vector@.len() ==> (#[trigger] vector@[k])@ == chunk_blocks(bytes@)[k],
            decreases bytes@.len() - i,
        {
            if bytes.len() - i <= 64 {
                let piece = &bytes[i..bytes.len()];
                vector.push(Block512::from_bytes(piece));
                assert(vector@.len() == chunk_count(bytes@.len()));
                assert(blocks_view(vector@) =~= chunk_blocks(bytes@));
                return vector;
            }
            let piece = &bytes[i..i + 64];
            vector.push(Block512::from_bytes(piece));
            i += 64;
        }
        assert(blocks_view(vector@) =~= chunk_blocks(bytes@));
        vector
    }

    /// string should be hexadecimal numbers seperated by newlines
    fn parse_bytes(string: &[char]) -> (r: Vec<Block512>)
        requires
            hex_lines(string@),
        ensures
            blocks_view(r@) == parse_blocks(string@),
    {
        let ls = lines_chars(string);
        let mut vector: Vec<Block512> = Vec::new();
        let mut i: usize = 0;
        while i < ls.len()
            invariant
                views(ls@) == lines(string@),
                hex_lines(string@),
                i <= ls@.len(),
                blocks_view(vector@) == parse_blocks(string@).take(i as int),
            decreases ls@.len() - i,
        {
            assert(views(ls@)[i as int] == ls@[i as int]@);
            assert(valid_hex(lines(string@)[i as int]));
            let b = Block512::from_hex_chars(ls[i].as_slice());
            let ghost old_v = vector@;
            vector.push(b);
            assert(blocks_view(vector@) =~= blocks_view(old_v).push(b@));
            assert(parse_blocks(string@).take(i + 1) =~= parse_blocks(string@).take(i as int).push(
                b@,
            ));
            i += 1;
        }
        assert(parse_blocks(string@).take(i as int) =~= parse_blocks(string@));
        vector
    }

    /// Converts a hex string into [SMsg]
    ///
    /// Where each block is seperated by a new line
    pub fn from_hex_string(string: &str) -> (r: SMsg)
        requires
            hex_string_ok(string@),
        ensures
            r@ == from_hex_string_view(string@),
    {
        let cs = chars_of(string);
        let mut blocks = Self::parse_bytes(cs.as_slice());
        let ghost all = blocks_view(blocks@);
        assert(all.len() == lines(string@).len());
        assert(blocks@.len() == all.len());
        assert(all[0] == hex_block(lines(string@)[0]));
        let ghost first = blocks@[0];
        assert(first@ == all[0]);
        let check = blocks.remove(0);
        assert(blocks_view(blocks@) =~= all.skip(1));
        SMsg { check, data: blocks }
    }

    /// Converts a hex string into [SMsg]
    ///
    /// Where the string is just one line
    ///
    /// Defaults check to 0
    pub fn from_hex_string_one_line(string: &str) -> (r: SMsg)
        requires
            hex_lines(with_breaks(string@)),
        ensures
            r@ == from_hex_one_line_view(string@),
    {
        let cs = chars_of(string);
        let broken = insert_breaks_chars(cs);
        let check = Block512::new();
        assert(check@ =~= zero_block());
        let data = Self::parse_bytes(broken.as_slice());
        SMsg { check, data }
    }

    /// Turns [SMsg] into a text [String]
    pub fn to_utf8_string(&self) -> (r: String)
        ensures
            r@ == utf8_text_of(self@),
            blocks_valid_utf8(self@) ==> r@ == decoded_text_of(self@),
    {
        let mut out: Vec<char> = Vec::new();
        let mut i: usize = 0;
        while i < self.data.len()
            invariant
                i <= self.data@.len(),
                out@ == utf8_text_of(SMsgView { check: self@.check, data: self@.data.take(i as int) }),
                blocks_valid_utf8(self@) ==> out@ == decoded_text_of(
                    SMsgView { check: self@.check, data: self@.data.take(i as int) },
                ),
            decreases self.data@.len() - i,
        {
            let text = self.data[i].to_utf8_string();
            let piece = chars_of(text.as_str());
            let ghost before = out@;
            append_chars(&mut out, piece.as_slice());
            proof {
                let d = self@.data;
                let f = |b: Seq<u8>| utf8_lossy(block_text_bytes(b));
                assert(d.take(i + 1).map_values(f).drop_last() =~= d.take(i as int).map_values(f));
                assert(d.take(i + 1).map_values(f).last() == f(d[i as int]));
                let g = |b: Seq<u8>| decode_utf8(block_text_bytes(b));
                assert(d.take(i + 1).map_values(g).drop_last() =~= d.take(i as int).map_values(g));
                assert(d.take(i + 1).map_values(g).last() == g(d[i as int]));
                assert(self.data@[i as int]@ == d[i as int]);
                if blocks_valid_utf8(self@) {
                    assert(valid_utf8(block_text_bytes(d[i as int])));
                }
            }
            i += 1;
        }
        assert(self@.data.take(i as int) =~= self@.data);
        string_from_chars(out.as_slice())
    }

    /// Turns [SMsg] into a [String] of hexadecimal numbers
    pub fn to_hex_string(&self) -> (r: String)
        ensures
            r@ == hex_string_of(self@),
    {
        let ghost parts = seq![hex_upper(self@.check)] + self@.data.map_values(
            |b: Seq<u8>| hex_upper(b),
        );
        let mut out: Vec<char> = self.check.hex_chars();
        out.push('\n');
        let mut i: usize = 0;
        assert(out@ =~= join_lines(parts.take(1)) + seq!['\n']);
        while i < self.data.len()
            invariant
                i <= self.data@.len(),
                parts == seq![hex_upper(self@.check)] + self@.data.map_values(
                    |b: Seq<u8>| hex_upper(b),
                ),
                out@ == join_lines(parts.take(i + 1)) + seq!['\n'],
            decreases self.data@.len() - i,
        {
            let h = self.data[i].hex_chars();
            append_chars(&mut out, h.as_slice());
            out.push('\n');
            proof {
                assert(parts.take(i + 2) =~= parts.take(i + 1).push(h@));
                lemma_join_lines_push(parts.take(i + 1), h@);
            }
            i += 1;
        }
        assert(parts.take(i + 1) =~= parts);
        proof {
            lemma_hex_upper_ends(self@.check);
            lemma_join_lines_last(parts);
            lemma_trim_end_newline(join_lines(parts));
        }
        let trimmed = trim_end_chars(out.as_slice());
        string_from_chars(trimmed.as_slice())
    }

    /// Turns [SMsg] into a single line [String] of hexadecimal numbers
    pub fn to_hex_string_one_line(&self) -> (r: String)
        ensures
            r@ == hex_one_line_of(self@),
    {
        if self.data.len() == 0 {
            let r = String::from_str("Failed hex string conversion");
            return r;
        }
        let mut out: Vec<char> = Vec::new();
        let mut i: usize = 0;
        while i < self.data.len()
            invariant
                i <= self.data@.len(),
                out@ == concat_chars(self@.data.take(i as int).map_values(|b: Seq<u8>| hex_upper(b))),
            decreases self.data@.len() - i,
        {
            let h = self.data[i].hex_chars();
            append_chars(&mut out, h.as_slice());
            proof {
                let d = self@.data;
                let f = |b: Seq<u8>| hex_upper(b);
                assert(d.take(i + 1).map_values(f).drop_last() =~= d.take(i as int).map_values(f));
                assert(d.take(i + 1).map_values(f).last() == f(d[i as int]));
            }
            i += 1;
        }
        assert(self@.data.take(i as int) =~= self@.data);
        string_from_chars(out.as_slice())
    }

    pub fn encrypt(&mut self, password: &str)
        ensures
            final(self)@ == cypher_view(old(self)@, password@),
    {
        self.cypher(password)
    }

    pub fn decrypt(&mut self, password: &str)
        ensures
            final(self)@ == cypher_view(old(self)@, password@),
    {
        self.cypher(password)
    }

    /// returns a copy of this [SMsg] decrypted
    pub fn decrypted(&self, password: &str) -> (r: SMsg)
        ensures
            r@ == cypher_view(self@, password@),
    {
        let mut copy = self.clone();
        copy.decrypt(password);
        return copy;
    }

    fn cypher(&mut self, password: &str)
        ensures
            final(self)@ == cypher_view(old(self)@, password@),
    {
        let hash = Block512::get_hash(password);
        self.check = hash.bitxor(&self.check);
        // block increment value to ensure that different blocks with
        // the same plain text encrypt differently
        let pw = chars_of(password);
        let mut i: usize = 0;
        let ghost target = cypher_view(old(self)@, password@);
        while i < self.data.len()
            invariant
                pw@ == password@,
                self@.check == target.check,
                self@.data.len() == old(self)@.data.len(),
                target == cypher_view(old(self)@, password@),
                i <= self@.data.len(),
                forall|j: int| 0 <= j < i ==> #[trigger] self@.data[j] == target.data[j],
                forall|j: int| i <= j < self@.data.len() ==> #[trigger] self@.data[j] == old(self)@.data[j],
            decreases self@.data.len() - i,
        {
            let mut key_chars = decimal_chars(i as u64);
            append_chars(&mut key_chars, pw.as_slice());
            let key_text = string_from_chars(key_chars.as_slice());
            let hash = Block512::get_hash(key_text.as_str());
            let value = hash.bitxor(&self.data[i]);
            assert(hash@ == data_key(password@, i as nat));
            assert(self.data@[i as int]@ == self@.data[i as int]);
            assert(self@.data[i as int] == old(self)@.data[i as int]);
            let ghost before = self.data@;
            self.data.set(i, value);
            assert(blocks_view(self.data@) =~= blocks_view(before).update(i as int, value@));
            assert(key_text@ == decimal(i as nat) + password@);
            assert(value@ == target.data[i as int]);
            assert(self@.data[i as int] == target.data[i as int]);
            i += 1;
        }
        assert(self@.data =~= target.data);
    }

    pub fn is_plain(&self) -> (r: bool)
        ensures
            r == (self@.check == zero_block()),
    {
        let mut i: usize = 0;
        while i < 64
            invariant
                i <= 64,
                self@.check.len() == 64,
                forall|j: int| 0 <= j < i ==> self@.check[j] == 0,
            decreases 64 - i,
        {
            if self.check.byte(i) != 0 {
                assert(self@.check[i as int] != zero_block()[i as int]);
                return false;
            }
            i += 1;
        }
        assert(self@.check =~= zero_block());
        true
    }

    pub fn set_plain(&mut self)
        ensures
            final(self)@ == (SMsgView { check: zero_block(), data: old(self)@.data }),
    {
        self.check = Block512::new();
        assert(self.check@ =~= zero_block());
    }
}

// Generic functions
impl SMsg {
    /// Converts a <T> into a [SMsg].
    /// Where T impls [Bytes]
    pub fn new<T: Bytes>(data: &T) -> (r: SMsg)
        requires
            data.encodable(),
        ensures
            r@ == (SMsgView { check: zero_block(), data: chunk_blocks(data.spec_to_bytes()) }),
    {
        let check = Block512::new();
        assert(check@ =~= zero_block());
        let bytes = data.to_bytes();
        SMsg { check, data: SMsg::from_bytes(bytes.as_slice()) }
    }

    /// Converts a [SMsg] into a <T>.
    /// Where T impls [Bytes]
    pub fn extract<T: Bytes>(&self) -> (r: T)
        requires
            self@.data.len() > 0,
            T::decodable(concat_bytes(self@.data)),
        ensures
            T::decodes_to(concat_bytes(self@.data), r),
    {
        let mut bytes: Vec<u8> = Vec::new();
        let mut i: usize = 0;
        while i < self.data.len()
            invariant
                i <= self.data@.len(),
                bytes@ == concat_bytes(self@.data.take(i as int)),
            decreases self.data@.len() - i,
        {
            let part = self.data[i].to_bytes();
            let ghost before = bytes@;
            let mut k: usize = 0;
            while k < part.len()
                invariant
                    k <= part@.len(),
                    bytes@ == before + part@.take(k as int),
                decreases part@.len() - k,
            {
                bytes.push(part[k]);
                k += 1;
                assert(bytes@ =~= before + part@.take(k as int));
            }
            assert(part@.take(k as int) =~= part@);
            assert(self@.data.take(i + 1).drop_last() =~= self@.data.take(i as int));
            i += 1;
        }
        assert(self@.data.take(i as int) =~= self@.data);
        T::from_bytes(bytes.as_slice())
    }
}

/// The characters with the line breaks that `from_hex_string_one_line`
/// inserts.
fn insert_breaks_chars(cs: Vec<char>) -> (r: Vec<char>)
    ensures
        r@ == with_breaks(cs@),
{
    let ghost orig = cs@;
    let mut cs = cs;
    let len = cs.len();
    let n = if len <= 128 {
        0
    } else {
        (len - 1) / 128
    };
    let mut k: usize = 1;
    while k <= n
        invariant
            len == orig.len(),
            n == break_count(len as nat),
            1 <= k <= n + 1,
            cs@.len() == len + k - 1,
            insert_breaks(cs@, k as nat, n as nat) == with_breaks(orig),
        decreases n + 1 - k,
    {
        assert(128 * k <= len) by (nonlinear_arith)
            requires
                k <= n,
                n == (len - 1) / 128,
                len > 128,
        ;
        cs.insert(128 * k, '\n');
        k += 1;
    }
    cs
}

/// Whether every line of `cs` is valid hexadecimal.
pub(crate) fn chars_hex_lines(cs: &[char]) -> (r: bool)
    ensures
        r == hex_lines(cs@),
{
    let ls = lines_chars(cs);
    let mut i: usize = 0;
    while i < ls.len()
        invariant
            views(ls@) == lines(cs@),
            i <= ls@.len(),
            forall|j: int| 0 <= j < i ==> valid_hex(#[trigger] lines(cs@)[j]),
        decreases ls@.len() - i,
    {
        assert(views(ls@)[i as int] == ls@[i as int]@);
        if !chars_are_valid_hex(ls[i].as_slice()) {
            return false;
        }
        i += 1;
    }
    true
}

/// Whether `SMsg::from_hex_string` can read `string`.
pub fn is_hex_string(string: &str) -> (r: bool)
    ensures
        r == hex_string_ok(string@),
{
    let cs = chars_of(string);
    let ls = lines_chars(cs.as_slice());
    if ls.len() < 2 {
        return false;
    }
    chars_hex_lines(cs.as_slice())
}

/// Whether `SMsg::from_hex_string_one_line` can read `string`.
pub fn is_hex_one_line(string: &str) -> (r: bool)
    ensures
        r == hex_lines(with_breaks(string@)),
{
    let cs = chars_of(string);
    let broken = insert_breaks_chars(cs);
    chars_hex_lines(broken.as_slice())
}

pub(crate) proof fn lemma_hex_upper_ends(b: Seq<u8>)
    requires
        b.len() > 0,
    ensures
        hex_upper(b).len() > 0,
        !is_whitespace(hex_upper(b).last()),
{
    let h = hex_upper(b);
    let last = b.last() % 16;
    assert(h.last() == hex_digit(last));
}

pub(crate) proof fn lemma_join_lines_last(parts: Seq<Seq<char>>)
    requires
        parts.len() > 0,
        parts.last().len() > 0,
        !is_whitespace(parts.last().last()),
    ensures
        join_lines(parts).len() > 0,
        join_lines(parts).last() == parts.last().last(),
    decreases parts.len(),
{
    if parts.len() > 1 {
        assert(parts.skip(1).last() == parts.last());
        lemma_join_lines_last(parts.skip(1));
    }
}

pub(crate) proof fn lemma_trim_end_newline(s: Seq<char>)
    requires
        s.len() > 0,
        !is_whitespace(s.last()),
    ensures
        trim_end(s + seq!['\n']) == s,
{
    assert((s + seq!['\n']).drop_last() =~= s);
    assert(is_whitespace('\n'));
    assert(trim_end(s) == s);
    assert(trim_end(s + seq!['\n']) == trim_end(s));
}

} // verus!

verus! {

// ------------------------------------------------------------------
// Laws
// ------------------------------------------------------------------

/// Running the cipher twice with the same password gives back the message:
/// `decrypt` undoes `encrypt` (and `decrypted` of an encrypted copy is the
/// message before encryption).
pub proof fn law_cypher_involution(m: SMsgView, password: Seq<char>)
    requires
        well_formed(m),
    ensures
        cypher_view(cypher_view(m, password), password) == m,
{
    let once = cypher_view(m, password);
    let twice = cypher_view(once, password);
    crate::block::law_xor_involution(sha512(encode_utf8(password)), m.check);
    assert forall|i: int| 0 <= i < m.data.len() implies #[trigger] twice.data[i] == m.data[i] by {
        crate::block::law_xor_involution(data_key(password, i as nat), m.data[i]);
    }
    assert(twice.data =~= m.data);
}

proof fn lemma_concat_bytes_chunks(bytes: Seq<u8>, n: nat)
    requires
        bytes.len() == 64 * n,
    ensures
        chunk_count(bytes.len()) == n,
        concat_bytes(chunk_blocks(bytes)) == bytes,
    decreases n,
{
    let c = chunk_blocks(bytes);
    if n == 0 {
        assert(c =~= Seq::<Seq<u8>>::empty());
    } else {
        let prefix = bytes.take(64 * (n - 1));
        lemma_concat_bytes_chunks(prefix, (n - 1) as nat);
        assert forall|k: int| 0 <= k < n - 1 implies #[trigger] chunk_blocks(prefix)[k] == c[k] by {
            assert(prefix.subrange(64 * k, 64 * k + 64) =~= bytes.subrange(64 * k, 64 * k + 64));
        }
        assert(c.drop_last() =~= chunk_blocks(prefix));
        crate::block::law_full_block(bytes.subrange(64 * (n - 1), 64 * n as int));
        assert(bytes.subrange(64 * (n - 1), 64 * n as int).take(64) =~= bytes.subrange(
            64 * (n - 1),
            64 * n as int,
        ));
        assert(c.last() == bytes.subrange(64 * (n - 1), 64 * n as int));
        assert(prefix + bytes.subrange(64 * (n - 1), 64 * n as int) =~= bytes);
    }
}

/// Data whose bytes fill whole blocks comes back unchanged: the blocks that
/// `new` makes join up to exactly the bytes of the value, so `extract`
/// decodes the value's own bytes.
pub proof fn law_new_extract_bytes(bytes: Seq<u8>)
    requires
        bytes.len() % 64 == 0,
    ensures
        concat_bytes(chunk_blocks(bytes)) == bytes,
{
    lemma_concat_bytes_chunks(bytes, bytes.len() / 64);
}

/// Text of fewer than 64 bytes becomes a single block that carries exactly
/// those bytes once its padding is removed.
pub proof fn law_new_short(bytes: Seq<u8>)
    requires
        0 < bytes.len() < 64,
    ensures
        chunk_blocks(bytes) == seq![block_of_bytes(bytes)],
        block_text_bytes(block_of_bytes(bytes)) == bytes,
{
    assert(bytes.subrange(0, bytes.len() as int) =~= bytes);
    assert(chunk_blocks(bytes) =~= seq![block_of_bytes(bytes)]);
    crate::block::law_padding_roundtrip(bytes);
}

} // verus!

verus! {

/// A digit of upper-case hexadecimal.
pub open spec fn upper_hex_char(c: char) -> bool {
    ('0' <= c && c <= '9') || ('A' <= c && c <= 'F')
}

pub(crate) proof fn lemma_hex_text_plain(bytes: Seq<u8>)
    ensures
        no_newline(hex_upper(bytes)),
        hex_upper(bytes).len() == 2 * bytes.len(),
        hex_upper(bytes).len() > 0 ==> hex_upper(bytes).last() != '\r',
        forall|i: int| 0 <= i < hex_upper(bytes).len() ==> upper_hex_char(#[trigger] hex_upper(bytes)[i]),
{
    crate::block::lemma_hex_upper_shape(bytes);
    let h = hex_upper(bytes);
    assert forall|i: int| 0 <= i < h.len() implies h[i] != '\n' && h[i] != '\r' && upper_hex_char(h[i]) by {
        let k = i / 2;
        assert(0 <= k < bytes.len());
        crate::block::lemma_hex_digit_value(bytes[k] / 16);
        crate::block::lemma_hex_digit_value(bytes[k] % 16);
        assert(h[2 * k] == hex_digit(bytes[k] / 16));
        assert(h[2 * k + 1] == hex_digit(bytes[k] % 16));
        if i % 2 == 0 {
            assert(i == 2 * k);
        } else {
            assert(i == 2 * k + 1);
        }
    }
}

pub(crate) proof fn lemma_lines_join(parts: Seq<Seq<char>>)
    requires
        forall|i: int|
            0 <= i < parts.len() ==> {
                &&& (#[trigger] parts[i]).len() > 0
                &&& no_newline(parts[i])
                &&& parts[i].last() != '\r'
            },
    ensures
        lines(join_lines(parts)) == parts,
    decreases parts.len(),
{
    if parts.len() == 0 {
        assert(lines(Seq::<char>::empty()) =~= Seq::<Seq<char>>::empty());
    } else if parts.len() == 1 {
        lemma_lines_single(parts[0]);
        assert(seq![parts[0]] =~= parts);
    } else {
        let rest = parts.skip(1);
        assert forall|i: int| 0 <= i < rest.len() implies {
            &&& (#[trigger] rest[i]).len() > 0
            &&& no_newline(rest[i])
            &&& rest[i].last() != '\r'
        } by {
            assert(rest[i] == parts[i + 1]);
        }
        lemma_lines_join(rest);
        lemma_lines_cons(parts[0], join_lines(rest));
        assert(strip_cr(parts[0]) == parts[0]);
        assert(seq![parts[0]] + rest =~= parts);
    }
}

proof fn lemma_hex_upper_concat(a: Seq<u8>, b: Seq<u8>)
    ensures
        hex_upper(a + b) == hex_upper(a) + hex_upper(b),
    decreases b.len(),
{
    if b.len() == 0 {
        assert(a + b =~= a);
        assert(hex_upper(a) + hex_upper(b) =~= hex_upper(a));
    } else {
        assert((a + b).drop_last() =~= a + b.drop_last());
        lemma_hex_upper_concat(a, b.drop_last());
        assert(hex_upper(a + b) =~= hex_upper(a) + hex_upper(b));
    }
}

proof fn lemma_concat_hex(data: Seq<Seq<u8>>)
    ensures
        concat_chars(data.map_values(|b: Seq<u8>| hex_upper(b))) == hex_upper(concat_bytes(data)),
    decreases data.len(),
{
    let f = |b: Seq<u8>| hex_upper(b);
    if data.len() == 0 {
        assert(data.map_values(f) =~= Seq::<Seq<char>>::empty());
    } else {
        assert(data.map_values(f).drop_last() =~= data.drop_last().map_values(f));
        lemma_concat_hex(data.drop_last());
        lemma_hex_upper_concat(concat_bytes(data.drop_last()), data.last());
    }
}

/// Reading back `to_hex_string` with `from_hex_string` gives the same
/// message: one line for the check block and one for each data block. A
/// message needs at least one data block to be read back at all.
pub proof fn law_hex_string_roundtrip(m: SMsgView)
    requires
        well_formed(m),
        m.data.len() >= 1,
    ensures
        hex_string_ok(hex_string_of(m)),
        from_hex_string_view(hex_string_of(m)) == m,
{
    let f = |b: Seq<u8>| hex_upper(b);
    let parts = seq![hex_upper(m.check)] + m.data.map_values(f);
    assert forall|i: int| 0 <= i < parts.len() implies {
        &&& (#[trigger] parts[i]).len() > 0
        &&& no_newline(parts[i])
        &&& parts[i].last() != '\r'
    } by {
        if i == 0 {
            lemma_hex_text_plain(m.check);
        } else {
            assert(parts[i] == hex_upper(m.data[i - 1]));
            lemma_hex_text_plain(m.data[i - 1]);
        }
    }
    lemma_lines_join(parts);
    let s = hex_string_of(m);
    assert(lines(s) == parts);
    assert forall|i: int| 0 <= i < parts.len() implies valid_hex(#[trigger] lines(s)[i])
        && hex_block(lines(s)[i]) == (seq![m.check] + m.data)[i] by {
        let b = (seq![m.check] + m.data)[i];
        assert(parts[i] == hex_upper(b));
        crate::block::law_hex_bytes_roundtrip(b);
        assert(block_of_bytes(b) =~= b);
    }
    assert(parse_blocks(s) =~= seq![m.check] + m.data);
    assert(parse_blocks(s).skip(1) =~= m.data);
}

/// Reading back `to_hex_string_one_line` with `from_hex_string_one_line`
/// gives the data blocks of a message with one or two of them (and a zero
/// check block, which the one-line form does not carry). With more blocks
/// the inserted line breaks fall one place too early and the text no longer
/// reads.
pub proof fn law_hex_one_line_roundtrip(m: SMsgView)
    requires
        well_formed(m),
        1 <= m.data.len() <= 2,
    ensures
        hex_lines(with_breaks(hex_one_line_of(m))),
        from_hex_one_line_view(hex_one_line_of(m)) == (SMsgView { check: zero_block(), data: m.data }),
{
    let f = |b: Seq<u8>| hex_upper(b);
    lemma_concat_hex(m.data);
    let s = hex_one_line_of(m);
    assert(s == hex_upper(concat_bytes(m.data)));
    let h0 = hex_upper(m.data[0]);
    lemma_hex_text_plain(m.data[0]);
    crate::block::law_hex_bytes_roundtrip(m.data[0]);
    assert(block_of_bytes(m.data[0]) =~= m.data[0]);
    if m.data.len() == 1 {
        assert(concat_bytes(m.data) =~= m.data[0]) by {
            assert(concat_bytes(m.data.drop_last()) =~= Seq::<u8>::empty());
        }
        assert(break_count(s.len()) == 0);
        assert(with_breaks(s) == s);
        lemma_lines_single(s);
        assert(parse_blocks(s) =~= m.data);
    } else {
        let h1 = hex_upper(m.data[1]);
        lemma_hex_text_plain(m.data[1]);
        crate::block::law_hex_bytes_roundtrip(m.data[1]);
        assert(block_of_bytes(m.data[1]) =~= m.data[1]);
        assert(concat_bytes(m.data) =~= m.data[0] + m.data[1]) by {
            let d1 = m.data.drop_last();
            assert(d1.drop_last() =~= Seq::<Seq<u8>>::empty());
            assert(concat_bytes(d1.drop_last()) =~= Seq::<u8>::empty());
            assert(d1.last() == m.data[0]);
            assert(concat_bytes(d1) =~= m.data[0]);
        }
        lemma_hex_upper_concat(m.data[0], m.data[1]);
        assert(s == h0 + h1);
        assert(s.len() == 256);
        assert(break_count(256) == 1);
        let t = s.insert(128, '\n');
        assert(insert_breaks(t, 2, 1) == t);
        assert(with_breaks(s) == t);
        assert(t =~= h0 + seq!['\n'] + h1);
        lemma_lines_cons(h0, h1);
        lemma_lines_single(h1);
        assert(strip_cr(h0) == h0);
        assert(lines(t) =~= seq![h0, h1]);
        assert(parse_blocks(t) =~= m.data);
    }
}

} // verus!

verus! {

/// Positions `i` and `i + 1` of `s` are both line breaks.
pub open spec fn blank_at(s: Seq<char>, i: int) -> bool {
    0 <= i && i + 1 < s.len() && s[i] == '\n' && s[i + 1] == '\n'
}

proof fn lemma_join_no_blank(parts: Seq<Seq<char>>)
    requires
        forall|i: int|
            0 <= i < parts.len() ==> (#[trigger] parts[i]).len() > 0 && no_newline(parts[i]),
    ensures
        forall|i: int| !#[trigger] blank_at(join_lines(parts), i),
        parts.len() > 0 ==> join_lines(parts).len() > 0 && join_lines(parts)[0] == parts[0][0],
    decreases parts.len(),
{
    if parts.len() >= 2 {
        let a = parts[0];
        let rest = parts.skip(1);
        assert forall|i: int| 0 <= i < rest.len() implies (#[trigger] rest[i]).len() > 0
            && no_newline(rest[i]) by {
            assert(rest[i] == parts[i + 1]);
        }
        lemma_join_no_blank(rest);
        let t = join_lines(rest);
        let s = join_lines(parts);
        assert(s == a + seq!['\n'] + t);
        assert(t[0] == rest[0][0]);
        assert forall|i: int| !#[trigger] blank_at(s, i) by {
            if 0 <= i < a.len() {
                assert(s[i] == a[i]);
            } else if i == a.len() {
                assert(s[i + 1] == t[0]);
            } else if i > a.len() && i + 1 < s.len() {
                let j = i - a.len() - 1;
                assert(s[i] == t[j]);
                assert(s[i + 1] == t[j + 1]);
                assert(!blank_at(t, j));
            }
        }
    } else if parts.len() == 1 {
        assert forall|i: int| !#[trigger] blank_at(join_lines(parts), i) by {
            if 0 <= i < parts[0].len() {
                assert(join_lines(parts)[i] == parts[0][i]);
            }
        }
    }
}

/// The hexadecimal text of a message holds no blank line: no two line
/// breaks follow each other, so no `"\n\n"` occurs in it.
pub proof fn lemma_hex_string_no_blank(m: SMsgView)
    requires
        well_formed(m),
    ensures
        forall|i: int| !#[trigger] blank_at(hex_string_of(m), i),
        hex_string_of(m).len() > 0,
{
    let f = |b: Seq<u8>| hex_upper(b);
    let parts = seq![hex_upper(m.check)] + m.data.map_values(f);
    assert forall|i: int| 0 <= i < parts.len() implies (#[trigger] parts[i]).len() > 0
        && no_newline(parts[i]) by {
        if i == 0 {
            lemma_hex_text_plain(m.check);
        } else {
            assert(parts[i] == hex_upper(m.data[i - 1]));
            lemma_hex_text_plain(m.data[i - 1]);
        }
    }
    lemma_join_no_blank(parts);
}

} // verus!

verus! {

/// Every character is a line break or an upper-case hexadecimal digit.
pub open spec fn hex_text_chars(s: Seq<char>) -> bool {
    forall|i: int| 0 <= i < s.len() ==> (#[trigger] s[i] == '\n' || upper_hex_char(s[i]))
}

proof fn lemma_join_lines_chars(parts: Seq<Seq<char>>)
    requires
        parts.len() > 0,
        forall|k: int| 0 <= k < parts.len() ==> (#[trigger] parts[k]).len() > 0,
        forall|k: int, i: int|
            0 <= k < parts.len() && 0 <= i < parts[k].len() ==> upper_hex_char(
                #[trigger] parts[k][i],
            ),
    ensures
        join_lines(parts).len() > 0,
        upper_hex_char(join_lines(parts)[0]),
        upper_hex_char(join_lines(parts).last()),
        hex_text_chars(join_lines(parts)),
    decreases parts.len(),
{
    let a = parts[0];
    assert(upper_hex_char(a[0]));
    if parts.len() == 1 {
        assert(upper_hex_char(a[a.len() - 1]));
        assert forall|i: int| 0 <= i < a.len() implies (#[trigger] a[i] == '\n' || upper_hex_char(a[i])) by {
            assert(upper_hex_char(parts[0][i]));
        }
    } else {
        let rest = parts.skip(1);
        assert forall|k: int| 0 <= k < rest.len() implies (#[trigger] rest[k]).len() > 0 by {
            assert(rest[k] == parts[k + 1]);
        }
        assert forall|k: int, i: int| 0 <= k < rest.len() && 0 <= i < rest[k].len() implies upper_hex_char(
            #[trigger] rest[k][i],
        ) by {
            assert(rest[k] == parts[k + 1]);
            assert(upper_hex_char(parts[k + 1][i]));
        }
        lemma_join_lines_chars(rest);
        let t = join_lines(rest);
        let s = join_lines(parts);
        assert(s == a + seq!['\n'] + t);
        assert(s.last() == t.last());
        assert forall|i: int| 0 <= i < s.len() implies (#[trigger] s[i] == '\n' || upper_hex_char(s[i])) by {
            if i < a.len() {
                assert(s[i] == a[i]);
                assert(upper_hex_char(parts[0][i]));
            } else if i > a.len() {
                assert(s[i] == t[i - a.len() - 1]);
            }
        }
    }
}

/// The hexadecimal text of a message: not empty, beginning and ending with
/// a digit, and made of digits and line breaks only.
pub proof fn lemma_hex_string_shape(m: SMsgView)
    requires
        well_formed(m),
    ensures
        hex_string_of(m).len() > 0,
        upper_hex_char(hex_string_of(m)[0]),
        upper_hex_char(hex_string_of(m).last()),
        hex_text_chars(hex_string_of(m)),
{
    let f = |b: Seq<u8>| hex_upper(b);
    let parts = seq![hex_upper(m.check)] + m.data.map_values(f);
    assert forall|k: int| 0 <= k < parts.len() implies (#[trigger] parts[k]).len() > 0 by {
        if k == 0 {
            lemma_hex_text_plain(m.check);
        } else {
            assert(parts[k] == hex_upper(m.data[k - 1]));
            lemma_hex_text_plain(m.data[k - 1]);
        }
    }
    assert forall|k: int, i: int| 0 <= k < parts.len() && 0 <= i < parts[k].len() implies upper_hex_char(
        #[trigger] parts[k][i],
    ) by {
        if k == 0 {
            lemma_hex_text_plain(m.check);
        } else {
            assert(parts[k] == hex_upper(m.data[k - 1]));
            lemma_hex_text_plain(m.data[k - 1]);
        }
    }
    lemma_join_lines_chars(parts);
}

/// The one-line hexadecimal text of a message with data holds no line
/// break.
pub proof fn lemma_hex_one_line_plain(m: SMsgView)
    requires
        m.data.len() >= 1,
    ensures
        no_newline(hex_one_line_of(m)),
{
    lemma_concat_hex(m.data);
    lemma_hex_text_plain(concat_bytes(m.data));
}

} // verus!

verus! {

/// A text of fewer than 64 bytes, made into a message, encrypted and then
/// decrypted with the same password, reads back as the same text: the
/// blocks decode as UTF-8 and together give the text.
pub proof fn law_short_text_roundtrip(s: Seq<char>, password: Seq<char>)
    requires
        encode_utf8(s).len() < 64,
    ensures
        cypher_view(cypher_view(text_message(s), password), password) == text_message(s),
        blocks_valid_utf8(text_message(s)),
        decoded_text_of(text_message(s)) == s,
{
    let bytes = encode_utf8(s);
    let m = text_message(s);
    vstd::utf8::encode_utf8_valid_utf8(s);
    vstd::utf8::encode_utf8_decode_utf8(s);
    let g = |b: Seq<u8>| decode_utf8(block_text_bytes(b));
    if bytes.len() == 0 {
        assert(m.data =~= Seq::<Seq<u8>>::empty());
        assert(m.data.map_values(g) =~= Seq::<Seq<char>>::empty());
        assert(decode_utf8(bytes) == Seq::<char>::empty());
    } else {
        law_new_short(bytes);
        assert(m.data.map_values(g) =~= seq![decode_utf8(bytes)]);
        let one = seq![decode_utf8(bytes)];
        assert(one.drop_last() =~= Seq::<Seq<char>>::empty());
        assert(concat_chars(one.drop_last()) == Seq::<char>::empty());
        assert(concat_chars(one) == concat_chars(one.drop_last()) + one.last());
        assert(concat_chars(one) =~= decode_utf8(bytes));
    }
    assert(well_formed(m));
    law_cypher_involution(m, password);
}

} // verus!

verus! {

/// The end of the `k`-th 64-byte piece of `n` bytes.
pub open spec fn piece_end(n: nat, k: int) -> int {
    if 64 * k + 64 <= n {
        64 * k + 64
    } else {
        n as int
    }
}

/// The ASCII encoding of a piece of ASCII text is that piece of its
/// encoding.
proof fn lemma_ascii_encode_subrange(s: Seq<char>, i: int, j: int)
    requires
        vstd::utf8::is_ascii_chars(s),
        0 <= i <= j <= s.len(),
    ensures
        encode_utf8(s.subrange(i, j)) == encode_utf8(s).subrange(i, j),
        encode_utf8(s).len() == s.len(),
{
    let t = s.subrange(i, j);
    assert(vstd::utf8::is_ascii_chars(t)) by {
        assert forall|k: int| 0 <= k < t.len() implies '\0' <= #[trigger] t[k] <= '\u{7f}' by {
            assert(t[k] == s[i + k]);
        }
    }
    vstd::utf8::is_ascii_chars_encode_utf8(s);
    vstd::utf8::is_ascii_chars_encode_utf8(t);
    assert forall|k: int| 0 <= k < t.len() implies encode_utf8(t)[k] == encode_utf8(s).subrange(i, j)[k] by {
        assert(t[k] == s[i + k]);
        assert(t[k] as u8 == encode_utf8(t)[k]);
        assert(s[i + k] as u8 == encode_utf8(s)[i + k]);
    }
    assert(encode_utf8(t) =~= encode_utf8(s).subrange(i, j));
}

/// Text pieces joined back give the text they were cut from.
proof fn lemma_concat_pieces(s: Seq<char>, n: nat)
    requires
        n <= chunk_count(s.len()),
    ensures
        n > 0 ==> concat_chars(Seq::new(n, |k: int| s.subrange(64 * k, piece_end(s.len(), k))))
            == s.subrange(0, piece_end(s.len(), n - 1)),
        n == 0 ==> concat_chars(Seq::new(n, |k: int| s.subrange(64 * k, piece_end(s.len(), k))))
            == Seq::<char>::empty(),
    decreases n,
{
    let f = |k: int| s.subrange(64 * k, piece_end(s.len(), k));
    let p = Seq::new(n, f);
    if n == 0 {
        assert(p =~= Seq::<Seq<char>>::empty());
    } else {
        lemma_concat_pieces(s, (n - 1) as nat);
        assert(p.drop_last() =~= Seq::new((n - 1) as nat, f));
        assert(p.last() == f(n - 1));
        if n == 1 {
            assert(concat_chars(p.drop_last()) == Seq::<char>::empty());
            assert(concat_chars(p) =~= s.subrange(0, piece_end(s.len(), 0)));
        } else {
            assert(piece_end(s.len(), n - 2) == 64 * (n - 1));
            assert(concat_chars(p) =~= s.subrange(0, piece_end(s.len(), n - 1)));
        }
    }
}

/// ASCII text, made into a message, encrypted and then decrypted with the
/// same password, reads back as the same text, where no 64-byte piece of it
/// ends like padding (a full piece whose last byte `p` is at most 64 and
/// follows `p - 1` copies of itself would lose those bytes).
pub proof fn law_ascii_text_roundtrip(s: Seq<char>, password: Seq<char>)
    requires
        vstd::utf8::is_ascii_chars(s),
        forall|k: int|
            0 <= k && 64 * k + 64 <= s.len() ==> #[trigger] block_text_bytes(
                encode_utf8(s).subrange(64 * k, 64 * k + 64),
            ) == encode_utf8(s).subrange(64 * k, 64 * k + 64),
    ensures
        cypher_view(cypher_view(text_message(s), password), password) == text_message(s),
        blocks_valid_utf8(text_message(s)),
        decoded_text_of(text_message(s)) == s,
{
    let b = encode_utf8(s);
    let m = text_message(s);
    lemma_ascii_encode_subrange(s, 0, s.len() as int);
    assert(b.len() == s.len());
    let n = chunk_count(b.len());
    let f = |k: int| s.subrange(64 * k, piece_end(s.len(), k));
    let g = |x: Seq<u8>| decode_utf8(block_text_bytes(x));
    assert forall|k: int| 0 <= k < n implies {
        &&& valid_utf8(#[trigger] block_text_bytes(m.data[k]))
        &&& decode_utf8(block_text_bytes(m.data[k])) == f(k)
    } by {
        let e = piece_end(s.len(), k);
        assert(64 * k < s.len()) by (nonlinear_arith)
            requires
                0 <= k < n,
                n == chunk_count(s.len()),
                s.len() > 0 ==> n == (s.len() - 1) / 64 + 1,
                s.len() == 0 ==> n == 0,
        ;
        let piece = b.subrange(64 * k, e);
        lemma_ascii_encode_subrange(s, 64 * k, e);
        assert(m.data[k] == block_of_bytes(piece));
        if 64 * k + 64 <= s.len() {
            crate::block::law_full_block(piece);
            assert(piece.take(64) =~= piece);
        } else {
            crate::block::law_padding_roundtrip(piece);
        }
        assert(block_text_bytes(m.data[k]) == piece);
        vstd::utf8::encode_utf8_valid_utf8(s.subrange(64 * k, e));
        vstd::utf8::encode_utf8_decode_utf8(s.subrange(64 * k, e));
    }
    assert(m.data.map_values(g) =~= Seq::new(n, f));
    lemma_concat_pieces(s, n);
    if n > 0 {
        assert(piece_end(s.len(), n - 1) == s.len()) by (nonlinear_arith)
            requires
                n == (s.len() - 1) / 64 + 1,
                s.len() > 0,
        {
        }
        assert(s.subrange(0, s.len() as int) =~= s);
    } else {
        assert(s.len() == 0);
        assert(s =~= Seq::<char>::empty());
    }
    assert(well_formed(m));
    law_cypher_involution(m, password);
}

} // verus!

verus! {

/// The cipher with a password: the check block is xored with the SHA-512 of
/// the password, and data block `i` with the SHA-512 of the decimal text of
/// `i` followed by the password, so each position has its own key; for two
/// positions the hashed texts differ.
pub proof fn law_cipher_block_keys(m: SMsgView, password: Seq<char>, i: int, j: int)
    requires
        0 <= i < m.data.len(),
        0 <= j < m.data.len(),
    ensures
        cypher_view(m, password).data.len() == m.data.len(),
        cypher_view(m, password).check == xor_bytes(sha512(encode_utf8(password)), m.check),
        cypher_view(m, password).data[i] == xor_bytes(
            sha512(encode_utf8(decimal(i as nat) + password)),
            m.data[i],
        ),
        i != j ==> decimal(i as nat) + password != decimal(j as nat) + password,
{
    if i != j {
        crate::text::lemma_decimal_prefix_distinct(i as nat, j as nat, password);
    }
}

} // verus!
