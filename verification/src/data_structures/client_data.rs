use vstd::prelude::*;
use vstd::utf8::{decode_utf8, encode_utf8, valid_utf8};
use crate::block::{
    block_of_bytes, block_text_bytes, hex_bytes, hex_chars_to_bytes, hex_digit_char, hex_upper,
    sha512, sha512_digest, valid_hex, xor_bytes,
};
use crate::bytes::copy_bytes;
use crate::smsg::{
    chunk_blocks, chunk_count, concat_chars, hex_block, hex_lines, join_lines, parse_blocks,
};
use crate::text::{
    append_chars, chars_of, decimal, decimal_chars, lines, lines_chars, string_from_chars,
    trim_end, trim_end_chars, utf8_lossy, utf8_lossy_string, views,
};

verus! {

/// Block512 is an array of 64 u8(bytes) representing 512 bits
pub struct Block512 {
    bytes: [u8; 64],
}

impl View for Block512 {
    type V = Seq<u8>;

    closed spec fn view(&self) -> Seq<u8> {
        self.bytes@
    }
}

/// Every block holds exactly 64 bytes.
pub broadcast proof fn lemma_client_block_len(b: Block512)
    ensures
        #[trigger] b@.len() == 64,
{
}

impl Clone for Block512 {
    fn clone(&self) -> (res: Self)
        ensures
            res@ == self@,
    {
        Self { bytes: self.bytes }
    }
}

impl Block512 {
    /// Creates a new [Block512] initialised to 0
    pub fn new() -> (r: Block512)
        ensures
            r@ == Seq::new(64, |i: int| 0u8),
    {
        let r = Block512 { bytes: [0u8; 64] };
        assert(r@ =~= Seq::new(64, |i: int| 0u8));
        r
    }

    /// Creates a new [Block512] from an array of bytes
    ///
    /// For inputting plain text
    pub fn from_bytes(bytes: &[u8]) -> (r: Block512)
        ensures
            r@ == block_of_bytes(bytes@),
    {
        let v = copy_bytes(bytes);
        Self::from_bytes_vec(&v)
    }

    /// Creates a new Block512 from a vector of bytes
    fn from_bytes_vec(bytes: &Vec<u8>) -> (r: Block512)
        ensures
            r@ == block_of_bytes(bytes@),
    {
        let mut block = Block512::new();
        let mut pad: u8 = 0;
        for i in 0..64
            invariant
                block.bytes@.len() == 64,
                forall|j: int| 0 <= j < i ==> block.bytes@[j] == block_of_bytes(bytes@)[j],
                pad == (if bytes@.len() < i {
                    (64 - bytes@.len()) as u8
                } else {
                    0u8
                }),
        {
            if i < bytes.len() {
                block.bytes[i] = bytes[i];
            } else {
                if pad == 0 {
                    pad = 64 - i as u8;
                }
                block.bytes[i] = pad;
            }
        }
        assert(block@ =~= block_of_bytes(bytes@));
        block
    }

    /// Returns a [String] that the [Block512] represents
    ///
    /// For getting plain text out of the [Block512]
    fn to_string(&self) -> (r: String)
        ensures
            r@ == utf8_lossy(block_text_bytes(self@)),
            valid_utf8(block_text_bytes(self@)) ==> r@ == decode_utf8(block_text_bytes(self@)),
    {
        let end = match self.padding() {
            Some(pad) => 64 - pad,
            None => 64,
        };
        let mut v: Vec<u8> = Vec::new();
        let mut i: usize = 0;
        while i < end
            invariant
                end <= 64,
                self.bytes@.len() == 64,
                i <= end,
                v@ == self@.take(i as int),
            decreases end - i,
        {
            v.push(self.bytes[i]);
            i += 1;
            assert(v@ =~= self@.take(i as int));
        }
        assert(self@.take(64) =~= self@);
        assert(v@ == block_text_bytes(self@));
        utf8_lossy_string(v.as_slice())
    }

    /// Returns None if there is no padding or Some(padding) if there is padding
    fn padding(&self) -> (r: Option<usize>)
        ensures
            match r {
                Some(p) => crate::block::block_padding(self@) == Some(p as nat) && p <= 64,
                None => crate::block::block_padding(self@) is None,
            },
    {
        let pad = self.bytes[63];
        if pad > 64 {
            return None;
        }
        let mut i: usize = 63;
        while i > 64 - pad as usize
            invariant
                self.bytes@.len() == 64,
                pad == self.bytes@[63],
                pad <= 64,
                64 - pad <= i || pad == 0,
                i <= 63,
                forall|j: int| i <= j < 63 ==> self.bytes@[j] == pad,
            decreases i,
        {
            i -= 1;
            if self.bytes[i] != pad {
                assert(!(self.bytes@[i as int] == pad));
                return None;
            }
        }
        Some(pad as usize)
    }

    /// Returns the [Block512] as a hexadecimal [String]
    pub fn as_hex(&self) -> (r: String)
        ensures
            r@ == hex_upper(self@),
    {
        let cs = self.hex_chars();
        string_from_chars(cs.as_slice())
    }

    /// The block as upper-case hexadecimal characters.
    fn hex_chars(&self) -> (r: Vec<char>)
        ensures
            r@ == hex_upper(self@),
    {
        let mut out: Vec<char> = Vec::new();
        for i in 0..64
            invariant
                self.bytes@.len() == 64,
                out@ == hex_upper(self.bytes@.take(i as int)),
        {
            let b = self.bytes[i];
            out.push(hex_digit_char(b / 16));
            out.push(hex_digit_char(b % 16));
            assert(self.bytes@.take(i + 1).drop_last() =~= self.bytes@.take(i as int));
            assert(out@ =~= hex_upper(self.bytes@.take(i + 1)));
        }
        assert(self.bytes@.take(64) =~= self.bytes@);
        out
    }

    /// Creates a new [Block512] from hexadecimal characters
    fn from_hex(hex: &[char]) -> (r: Block512)
        requires
            valid_hex(hex@),
        ensures
            r@ == block_of_bytes(hex_bytes(hex@)),
    {
        let bytes = hex_chars_to_bytes(hex);
        Self::from_bytes_vec(&bytes)
    }

    /// The byte-wise exclusive or of two blocks (`&a ^ &b`).
    pub fn bitxor(&self, rhs: &Block512) -> (r: Block512)
        ensures
            r@ == xor_bytes(self@, rhs@),
    {
        let mut out = Block512::new();
        for i in 0..64
            invariant
                self.bytes@.len() == 64,
                rhs.bytes@.len() == 64,
                out.bytes@.len() == 64,
                forall|j: int| 0 <= j < i ==> out.bytes@[j] == self.bytes@[j] ^ rhs.bytes@[j],
        {
            out.bytes[i] = self.bytes[i] ^ rhs.bytes[i];
        }
        assert(out@ =~= xor_bytes(self@, rhs@));
        out
    }
}

/// What an [SMsg] holds: which kind it is and its blocks' bytes.
pub enum SMsgView {
    CypherText(Seq<Seq<u8>>),
    PlainText(Seq<Seq<u8>>),
}

impl SMsgView {
    /// The blocks, whichever kind.
    pub open spec fn blocks(self) -> Seq<Seq<u8>> {
        match self {
            SMsgView::CypherText(d) => d,
            SMsgView::PlainText(d) => d,
        }
    }
}

/// Every block, without its padding, is valid UTF-8.
pub open spec fn blocks_valid_utf8(d: Seq<Seq<u8>>) -> bool {
    forall|k: int| 0 <= k < d.len() ==> valid_utf8(#[trigger] block_text_bytes(d[k]))
}

/// The text of blocks that are each valid UTF-8: each block without its
/// padding, decoded, and joined.
pub open spec fn decoded_blocks(d: Seq<Seq<u8>>) -> Seq<char> {
    concat_chars(d.map_values(|b: Seq<u8>| decode_utf8(block_text_bytes(b))))
}

/// The text `to_string_hex` gives for blocks: each block in hexadecimal on a
/// line of its own, without a final line break.
pub open spec fn client_hex_text(d: Seq<Seq<u8>>) -> Seq<char> {
    trim_end(concat_chars(d.map_values(|b: Seq<u8>| hex_upper(b) + seq!['\n'])))
}

/// The bytes of each block.
pub open spec fn blocks_view(v: Seq<Block512>) -> Seq<Seq<u8>> {
    v.map_values(|b: Block512| b@)
}

/// The key block for block `i`: the hash of `i` in decimal followed by the
/// password.
pub open spec fn block_key(password: Seq<char>, i: nat) -> Seq<u8> {
    sha512(encode_utf8(decimal(i) + password))
}

/// Each block xored with its key.
pub open spec fn cypher_blocks(d: Seq<Seq<u8>>, password: Seq<char>) -> Seq<Seq<u8>> {
    Seq::new(d.len(), |i: int| xor_bytes(block_key(password, i as nat), d[i]))
}

pub enum SMsg {
    CypherText(Vec<Block512>),
    PlainText(Vec<Block512>),
}

impl View for SMsg {
    type V = SMsgView;

    open spec fn view(&self) -> SMsgView {
        match self {
            SMsg::CypherText(v) => SMsgView::CypherText(blocks_view(v@)),
            SMsg::PlainText(v) => SMsgView::PlainText(blocks_view(v@)),
        }
    }
}

fn clone_blocks(v: &Vec<Block512>) -> (r: Vec<Block512>)
    ensures
        blocks_view(r@) == blocks_view(v@),
{
    let mut out: Vec<Block512> = Vec::new();
    let mut i: usize = 0;
    while i < v.len()
        invariant
            i <= v@.len(),
            blocks_view(out@) == blocks_view(v@).take(i as int),
        decreases v@.len() - i,
    {
        let c = v[i].clone();
        let ghost before = out@;
        out.push(c);
        assert(blocks_view(out@) =~= blocks_view(before).push(c@));
        assert(blocks_view(v@).take(i + 1) =~= blocks_view(v@).take(i as int).push(v@[i as int]@));
        i += 1;
    }
    assert(blocks_view(v@).take(i as int) =~= blocks_view(v@));
    out
}

/// Each block xored with its key for `password`.
fn cypher_data(mut data: Vec<Block512>, password: &str) -> (r: Vec<Block512>)
    ensures
        blocks_view(r@) == cypher_blocks(blocks_view(data@), password@),
{
    let ghost orig = blocks_view(data@);
    let pw = chars_of(password);
    let mut i: usize = 0;
    while i < data.len()
        invariant
            pw@ == password@,
            orig.len() == data@.len(),
            i <= data@.len(),
            forall|j: int| 0 <= j < i ==> #[trigger] blocks_view(data@)[j] == cypher_blocks(orig, password@)[j],
            forall|j: int| i <= j < data@.len() ==> #[trigger] blocks_view(data@)[j] == orig[j],
        decreases data@.len() - i,
    {
        let mut key_chars = decimal_chars(i as u64);
        append_chars(&mut key_chars, pw.as_slice());
        let key_text = string_from_chars(key_chars.as_slice());
        let digest = sha512_digest(key_text.as_str().as_bytes());
        let hash = Block512::from_bytes(digest.as_slice());
        assert(block_of_bytes(digest@) =~= digest@);
        assert(blocks_view(data@)[i as int] == data@[i as int]@);
        let value = hash.bitxor(&data[i]);
        let ghost before = data@;
        data.set(i, value);
        assert(blocks_view(data@) =~= blocks_view(before).update(i as int, value@));
        assert(key_text@ == decimal(i as nat) + password@);
        i += 1;
    }
    assert(blocks_view(data@) =~= cypher_blocks(orig, password@));
    data
}

impl Clone for SMsg {
    fn clone(&self) -> (r: Self)
        ensures
            r@ == self@,
    {
        match self {
            Self::CypherText(block) => Self::CypherText(clone_blocks(block)),
            Self::PlainText(block) => Self::PlainText(clone_blocks(block)),
        }
    }
}

impl SMsg {
    pub fn len(&self) -> (r: usize)
        ensures
            r == self@.blocks().len(),
    {
        match self {
            SMsg::CypherText(vec) => vec.len(),
            SMsg::PlainText(vec) => vec.len(),
        }
    }

    fn from_bytes(bytes: &[u8]) -> (r: Vec<Block512>)
        ensures
            blocks_view(r@) == chunk_blocks(bytes@),
    {
        let mut vector: Vec<Block512> = Vec::new();
        let mut i: usize = 0;
        while i < bytes.len()
            invariant
                i == 64 * vector@.len(),
                i <= bytes@.len(),
                vector@.len() <= chunk_count(bytes@.len()),
                forall|k: int|
                    0 <= k < vector@.len() ==> (#[trigger] vector@[k])@ == chunk_blocks(bytes@)[k],
            decreases bytes@.len() - i,
        {
            if bytes.len() - i <= 64 {
                let piece = &bytes[i..bytes.len()];
                vector.push(Block512::from_bytes(piece));
                assert(vector@.len() == chunk_count(bytes@.len()));
                assert(blocks_view(vector@) =~= chunk_blocks(bytes@));
                return vector;
            }
            let piece = &bytes[i..i + 64];
            vector.push(Block512::from_bytes(piece));
            i += 64;
        }
        assert(blocks_view(vector@) =~= chunk_blocks(bytes@));
        vector
    }

    /// string should be hexadecimal numbers seperated by newlines
    fn parse_bytes(string: &str) -> (r: Vec<Block512>)
        requires
            hex_lines(string@),
        ensures
            blocks_view(r@) == parse_blocks(string@),
    {
        let cs = chars_of(string);
        let ls = lines_chars(cs.as_slice());
        let mut vector: Vec<Block512> = Vec::new();
        let mut i: usize = 0;
        while i < ls.len()
            invariant
                views(ls@) == lines(string@),
                hex_lines(string@),
                i <= ls@.len(),
                blocks_view(vector@) == parse_blocks(string@).take(i as int),
            decreases ls@.len() - i,
        {
            assert(views(ls@)[i as int] == ls@[i as int]@);
            assert(valid_hex(lines(string@)[i as int]));
            let b = Block512::from_hex(ls[i].as_slice());
            let ghost old_v = vector@;
            vector.push(b);
            assert(blocks_view(vector@) =~= blocks_view(old_v).push(b@));
            assert(parse_blocks(string@).take(i + 1) =~= parse_blocks(string@).take(i as int).push(
                b@,
            ));
            i += 1;
        }
        assert(parse_blocks(string@).take(i as int) =~= parse_blocks(string@));
        vector
    }

    /// Converts a normal string into an SMsg::PlainText
    pub fn plain_from_str(string: &str) -> (r: SMsg)
        ensures
            r@ == SMsgView::PlainText(chunk_blocks(encode_utf8(string@))),
    {
        SMsg::PlainText(SMsg::from_bytes(string.as_bytes()))
    }

    /// Converts a string of bytes into SMsg::CypherText
    pub fn cypher_from_hex(string: &str) -> (r: SMsg)
        requires
            hex_lines(string@),
        ensures
            r@ == SMsgView::CypherText(parse_blocks(string@)),
    {
        SMsg::CypherText(SMsg::parse_bytes(string))
    }

    /// Turns SMsg into a text String
    pub fn to_string(&self) -> (r: String)
        ensures
            r@ == concat_chars(
                self@.blocks().map_values(|b: Seq<u8>| utf8_lossy(block_text_bytes(b))),
            ),
            blocks_valid_utf8(self@.blocks()) ==> r@ == decoded_blocks(self@.blocks()),
    {
        let data = match self {
            SMsg::CypherText(data) => data,
            SMsg::PlainText(data) => data,
        };
        let ghost d = blocks_view(data@);
        let mut out: Vec<char> = Vec::new();
        let mut i: usize = 0;
        while i < data.len()
            invariant
                d == blocks_view(data@),
                d == self@.blocks(),
                i <= data@.len(),
                out@ == concat_chars(
                    d.take(i as int).map_values(|b: Seq<u8>| utf8_lossy(block_text_bytes(b))),
                ),
                blocks_valid_utf8(d) ==> out@ == decoded_blocks(d.take(i as int)),
            decreases data@.len() - i,
        {
            let text = data[i].to_string();
            let piece = chars_of(text.as_str());
            append_chars(&mut out, piece.as_slice());
            proof {
                let f = |b: Seq<u8>| utf8_lossy(block_text_bytes(b));
                assert(d.take(i + 1).map_values(f).drop_last() =~= d.take(i as int).map_values(f));
                assert(d.take(i + 1).map_values(f).last() == f(d[i as int]));
                let g = |b: Seq<u8>| decode_utf8(block_text_bytes(b));
                assert(d.take(i + 1).map_values(g).drop_last() =~= d.take(i as int).map_values(g));
                assert(d.take(i + 1).map_values(g).last() == g(d[i as int]));
                assert(data@[i as int]@ == d[i as int]);
                if blocks_valid_utf8(d) {
                    assert(valid_utf8(block_text_bytes(d[i as int])));
                }
            }
            i += 1;
        }
        assert(d.take(i as int) =~= d);
        string_from_chars(out.as_slice())
    }

    /// Turns SMsg into a String of hexadecimal numbers
    pub fn to_string_hex(&self) -> (r: String)
        ensures
            r@ == trim_end(
                concat_chars(self@.blocks().map_values(|b: Seq<u8>| hex_upper(b) + seq!['\n'])),
            ),
    {
        let data = match self {
            SMsg::CypherText(data) => data,
            SMsg::PlainText(data) => data,
        };
        let ghost d = blocks_view(data@);
        let mut out: Vec<char> = Vec::new();
        let mut i: usize = 0;
        while i < data.len()
            invariant
                d == blocks_view(data@),
                i <= data@.len(),
                out@ == concat_chars(
                    d.take(i as int).map_values(|b: Seq<u8>| hex_upper(b) + seq!['\n']),
                ),
            decreases data@.len() - i,
        {
            let h = data[i].hex_chars();
            append_chars(&mut out, h.as_slice());
            out.push('\n');
            proof {
                let f = |b: Seq<u8>| hex_upper(b) + seq!['\n'];
                assert(d.take(i + 1).map_values(f).drop_last() =~= d.take(i as int).map_values(f));
                assert(d.take(i + 1).map_values(f).last() == f(d[i as int]));
                assert(f(d[i as int]) =~= h@ + seq!['\n']);
            }
            i += 1;
        }
        assert(d.take(i as int) =~= d);
        let t = trim_end_chars(out.as_slice());
        string_from_chars(t.as_slice())
    }

    pub fn encrypt(self, password: &str) -> (r: SMsg)
        ensures
            r@ == match self@ {
                SMsgView::CypherText(d) => SMsgView::CypherText(d),
                SMsgView::PlainText(d) => SMsgView::CypherText(cypher_blocks(d, password@)),
            },
    {
        match self {
            SMsg::CypherText(_) => self,
            SMsg::PlainText(data) => SMsg::CypherText(cypher_data(data, password)),
        }
    }

    pub fn decrypt(self, password: &str) -> (r: SMsg)
        ensures
            r@ == match self@ {
                SMsgView::PlainText(d) => SMsgView::PlainText(d),
                SMsgView::CypherText(d) => SMsgView::CypherText(cypher_blocks(d, password@)),
            },
    {
        match self {
            SMsg::PlainText(_) => self,
            SMsg::CypherText(data) => SMsg::CypherText(cypher_data(data, password)),
        }
    }
}

/// Decrypting what was encrypted with the same password gives back the
/// blocks it started with (the message stays marked as cypher text).
pub proof fn law_client_decrypt_encrypt(d: Seq<Seq<u8>>, password: Seq<char>)
    requires
        forall|i: int| 0 <= i < d.len() ==> (#[trigger] d[i]).len() == 64,
    ensures
        cypher_blocks(cypher_blocks(d, password), password) == d,
{
    assert forall|i: int| 0 <= i < d.len() implies #[trigger] cypher_blocks(
        cypher_blocks(d, password),
        password,
    )[i] == d[i] by {
        crate::block::law_xor_involution(block_key(password, i as nat), d[i]);
    }
    assert(cypher_blocks(cypher_blocks(d, password), password) =~= d);
}

} // verus!

verus! {

/// Plain ASCII text made into a message reads back as the same text, where
/// no 64-byte piece of it ends like padding (a full piece whose last byte
/// `p` is at most 64 and follows `p - 1` copies of itself would lose those
/// bytes).
pub proof fn law_client_text_roundtrip(s: Seq<char>)
    requires
        vstd::utf8::is_ascii_chars(s),
        forall|k: int|
            0 <= k && 64 * k + 64 <= s.len() ==> #[trigger] block_text_bytes(
                encode_utf8(s).subrange(64 * k, 64 * k + 64),
            ) == encode_utf8(s).subrange(64 * k, 64 * k + 64),
    ensures
        blocks_valid_utf8(chunk_blocks(encode_utf8(s))),
        decoded_blocks(chunk_blocks(encode_utf8(s))) == s,
{
    crate::smsg::law_ascii_text_roundtrip(s, seq![]);
    let m = crate::user_info::text_message(s);
    assert(m.data == chunk_blocks(encode_utf8(s)));
    assert forall|k: int| 0 <= k < m.data.len() implies valid_utf8(
        #[trigger] block_text_bytes(m.data[k]),
    ) by {
        assert(crate::smsg::blocks_valid_utf8(m));
    }
}

proof fn lemma_hex_lines_concat(d: Seq<Seq<u8>>)
    requires
        d.len() > 0,
    ensures
        concat_chars(d.map_values(|b: Seq<u8>| hex_upper(b) + seq!['\n'])) == join_lines(
            d.map_values(|b: Seq<u8>| hex_upper(b)),
        ) + seq!['\n'],
    decreases d.len(),
{
    let f = |b: Seq<u8>| hex_upper(b) + seq!['\n'];
    let h = |b: Seq<u8>| hex_upper(b);
    if d.len() == 1 {
        assert(d.map_values(f).drop_last() =~= Seq::<Seq<char>>::empty());
        assert(concat_chars(d.map_values(f).drop_last()) == Seq::<char>::empty());
        assert(concat_chars(d.map_values(f)) =~= hex_upper(d[0]) + seq!['\n']);
        assert(join_lines(d.map_values(h)) == hex_upper(d[0]));
    } else {
        let dl = d.drop_last();
        lemma_hex_lines_concat(dl);
        assert(d.map_values(f).drop_last() =~= dl.map_values(f));
        assert(d.map_values(h) =~= dl.map_values(h).push(hex_upper(d.last())));
        crate::smsg::lemma_join_lines_push(dl.map_values(h), hex_upper(d.last()));
        assert(concat_chars(d.map_values(f)) =~= join_lines(d.map_values(h)) + seq!['\n']);
    }
}

/// The hexadecimal text of a client message reads back as the same blocks:
/// `cypher_from_hex` of `to_string_hex` holds every block, in order.
pub proof fn law_client_hex_roundtrip(d: Seq<Seq<u8>>)
    requires
        forall|k: int| 0 <= k < d.len() ==> (#[trigger] d[k]).len() == 64,
    ensures
        hex_lines(client_hex_text(d)),
        parse_blocks(client_hex_text(d)) == d,
{
    let f = |b: Seq<u8>| hex_upper(b) + seq!['\n'];
    let h = |b: Seq<u8>| hex_upper(b);
    if d.len() == 0 {
        assert(d.map_values(f) =~= Seq::<Seq<char>>::empty());
        assert(client_hex_text(d) == Seq::<char>::empty());
        assert(lines(Seq::<char>::empty()) =~= Seq::<Seq<char>>::empty());
        assert(parse_blocks(client_hex_text(d)) =~= d);
    } else {
        let parts = d.map_values(h);
        lemma_hex_lines_concat(d);
        assert forall|i: int| 0 <= i < parts.len() implies {
            &&& (#[trigger] parts[i]).len() > 0
            &&& crate::text::no_newline(parts[i])
            &&& parts[i].last() != '\r'
        } by {
            crate::smsg::lemma_hex_text_plain(d[i]);
        }
        crate::smsg::lemma_hex_upper_ends(d.last());
        assert(parts.last() == hex_upper(d.last()));
        crate::smsg::lemma_join_lines_last(parts);
        crate::smsg::lemma_trim_end_newline(join_lines(parts));
        crate::smsg::lemma_lines_join(parts);
        let t = client_hex_text(d);
        assert(t == join_lines(parts));
        assert(lines(t) == parts);
        assert forall|i: int| 0 <= i < parts.len() implies valid_hex(#[trigger] lines(t)[i])
            && hex_block(lines(t)[i]) == d[i] by {
            crate::block::law_hex_bytes_roundtrip(d[i]);
            assert(block_of_bytes(d[i]) =~= d[i]);
        }
        assert(parse_blocks(t) =~= d);
    }
}

} // verus!

verus! {

/// The client's cipher with a password: block `i` is xored with the SHA-512
/// of the decimal text of `i` followed by the password, so each position has
/// its own key; for two positions the hashed texts differ.
pub proof fn law_client_block_keys(d: Seq<Seq<u8>>, password: Seq<char>, i: int, j: int)
    requires
        0 <= i < d.len(),
        0 <= j < d.len(),
    ensures
        cypher_blocks(d, password).len() == d.len(),
        cypher_blocks(d, password)[i] == xor_bytes(
            sha512(encode_utf8(decimal(i as nat) + password)),
            d[i],
        ),
        i != j ==> decimal(i as nat) + password != decimal(j as nat) + password,
{
    if i != j {
        crate::text::lemma_decimal_prefix_distinct(i as nat, j as nat, password);
    }
}

} // verus!
