use vstd::prelude::*;
use crate::text::{
    append_chars, chars_of, decimal, decimal_chars, join_with, string_from_chars, utf8_lossy,
    utf8_lossy_string,
};
use crate::bytes::{copy_bytes, Bytes};
use sha2::{Digest, Sha512};

verus! {

// ------------------------------------------------------------------
// The model: a block is 64 bytes
// ------------------------------------------------------------------

/// The block that a byte sequence fills: its first 64 bytes, and where it is
/// shorter, the rest filled with copies of the number of missing bytes.
pub open spec fn block_of_bytes(bytes: Seq<u8>) -> Seq<u8> {
    Seq::new(
        64,
        |i: int|
            if i < bytes.len() {
                bytes[i]
            } else {
                (64 - bytes.len()) as u8
            },
    )
}

/// The padding that a block ends with, if it looks padded: its last byte
/// `p` is at most 64 and the `p - 1` bytes before it equal `p` too.
pub open spec fn block_padding(b: Seq<u8>) -> Option<nat> {
    let pad = b[63];
    if pad > 64 {
        None
    } else if forall|i: int| 64 - pad <= i < 63 ==> #[trigger] b[i] == pad {
        Some(pad as nat)
    } else {
        None
    }
}

/// The bytes of a block without its padding.
pub open spec fn block_text_bytes(b: Seq<u8>) -> Seq<u8> {
    match block_padding(b) {
        Some(p) => b.take(64 - p),
        None => b,
    }
}

/// The byte-wise exclusive or of two blocks.
pub open spec fn xor_bytes(a: Seq<u8>, b: Seq<u8>) -> Seq<u8> {
    Seq::new(64, |i: int| a[i] ^ b[i])
}

/// The upper-case hexadecimal digit of a value below 16.
pub open spec fn hex_digit(n: u8) -> char {
    if n < 10 {
        ((48 + n) as u8) as char
    } else {
        ((55 + n) as u8) as char
    }
}

/// A byte as two upper-case hexadecimal digits.
pub open spec fn byte_hex(b: u8) -> Seq<char> {
    seq![hex_digit(b / 16), hex_digit(b % 16)]
}

/// Bytes as upper-case hexadecimal, two digits each.
pub open spec fn hex_upper(bytes: Seq<u8>) -> Seq<char>
    decreases bytes.len(),
{
    if bytes.len() == 0 {
        seq![]
    } else {
        hex_upper(bytes.drop_last()) + byte_hex(bytes.last())
    }
}

/// Bytes as `Debug` prints an array: decimal numbers separated by `", "`
/// in square brackets.
pub open spec fn bytes_debug(b: Seq<u8>) -> Seq<char> {
    "["@ + join_with(b.map_values(|x: u8| decimal(x as nat)), ", "@) + "]"@
}

/// Whether `c` is a hexadecimal digit of either case.
pub open spec fn is_hex_digit(c: char) -> bool {
    ('0' <= c <= '9') || ('a' <= c <= 'f') || ('A' <= c <= 'F')
}

/// The value of a hexadecimal digit.
pub open spec fn hex_value(c: char) -> u8 {
    if '0' <= c <= '9' {
        ((c as u32) - 48) as u8
    } else if 'a' <= c <= 'f' {
        ((c as u32) - 87) as u8
    } else {
        ((c as u32) - 55) as u8
    }
}

/// Two characters that `u8::from_str_radix(.., 16)` accepts: two hex digits,
/// or `'+'` and one.
pub open spec fn hex_pair_ok(a: char, b: char) -> bool {
    is_hex_digit(b) && (is_hex_digit(a) || a == '+')
}

/// The value that `u8::from_str_radix(.., 16)` gives for an accepted pair.
pub open spec fn hex_pair_value(a: char, b: char) -> u8 {
    if a == '+' {
        hex_value(b)
    } else {
        (hex_value(a) * 16 + hex_value(b)) as u8
    }
}

/// A string that `Block512::from_hex` reads without panicking: an even
/// number of characters, in pairs that parse as hexadecimal bytes.
pub open spec fn valid_hex(hex: Seq<char>) -> bool {
    &&& hex.len() % 2 == 0
    &&& forall|k: int| 0 <= k < hex.len() / 2 ==> #[trigger] hex_pair_ok(hex[2 * k], hex[2 * k + 1])
}

/// The bytes that a valid hexadecimal string stands for.
pub open spec fn hex_bytes(hex: Seq<char>) -> Seq<u8> {
    Seq::new(hex.len() / 2, |k: int| hex_pair_value(hex[2 * k], hex[2 * k + 1]))
}

/// What the SHA-512 digest of a byte sequence is.
pub uninterp spec fn sha512(data: Seq<u8>) -> Seq<u8>;

/// Calls `Sha512::digest` from `sha2`. Claimed: the result is `sha512` of
/// the input and is 64 bytes long (`Sha512`'s output size is `U64`).
#[verifier::external_body]
pub(crate) fn sha512_digest(data: &[u8]) -> (r: Vec<u8>)
    ensures
        r@ == sha512(data@),
        r@.len() == 64,
{
    Sha512::digest(data).to_vec()
}

// ------------------------------------------------------------------
// Block512
// ------------------------------------------------------------------

/// Block512 is an array of 64 u8(bytes) representing 512 bits
#[derive(Debug)]
pub struct Block512 {
    bytes: [u8; 64],
}

impl View for Block512 {
    type V = Seq<u8>;

    closed spec fn view(&self) -> Seq<u8> {
        self.bytes@
    }
}

/// Every block holds exactly 64 bytes.
pub broadcast proof fn lemma_block_len(b: Block512)
    ensures
        #[trigger] b@.len() == 64,
{
}

impl Clone for Block512 {
    fn clone(&self) -> (res: Self)
        ensures
            res@ == self@,
    {
        Self { bytes: self.bytes }
    }
}

impl Block512 {
    /// Creates a new [Block512] initialised to 0
    pub fn new() -> (r: Block512)
        ensures
            r@ == Seq::new(64, |i: int| 0u8),
    {
        let r = Block512 { bytes: [0u8; 64] };
        assert(r@ =~= Seq::new(64, |i: int| 0u8));
        r
    }

    /// The byte at `i`.
    pub fn byte(&self, i: usize) -> (r: u8)
        requires
            i < 64,
        ensures
            r == self@[i as int],
    {
        self.bytes[i]
    }

    /// Creates a new Block512 from a vector of bytes
    fn from_bytes_vec(bytes: &Vec<u8>) -> (r: Block512)
        ensures
            r@ == block_of_bytes(bytes@),
    {
        let mut block = Block512::new();
        let mut pad: u8 = 0;
        for i in 0..64
            invariant
                block.bytes@.len() == 64,
                forall|j: int| 0 <= j < i ==> block.bytes@[j] == block_of_bytes(bytes@)[j],
                pad == (if bytes@.len() < i {
                    (64 - bytes@.len()) as u8
                } else {
                    0u8
                }),
        {
            if i < bytes.len() {
                block.bytes[i] = bytes[i];
            } else {
                if pad == 0 {
                    pad = 64 - i as u8;
                }
                block.bytes[i] = pad;
            }
        }
        assert(block@ =~= block_of_bytes(bytes@));
        block
    }

    /// Returns None if there is no padding or Some(padding) if there is padding
    fn padding(&self) -> (r: Option<usize>)
        ensures
            match r {
                Some(p) => block_padding(self@) == Some(p as nat),
                None => block_padding(self@) is None,
            },
    {
        let pad = self.bytes[63];
        if pad > 64 {
            return None;
        }
        let mut i: usize = 63;
        while i > 64 - pad as usize
            invariant
                self.bytes@.len() == 64,
                pad == self.bytes@[63],
                pad <= 64,
                64 - pad <= i || pad == 0,
                i <= 63,
                forall|j: int| i <= j < 63 ==> self.bytes@[j] == pad,
            decreases i,
        {
            i -= 1;
            if self.bytes[i] != pad {
                assert(!(self.bytes@[i as int] == pad));
                return None;
            }
        }
        Some(pad as usize)
    }

    /// Returns a [String] that the [Block512] represents
    ///
    /// For getting plain text out of the [Block512]
    pub fn to_utf8_string(&self) -> (r: String)
        ensures
            r@ == utf8_lossy(block_text_bytes(self@)),
            vstd::utf8::valid_utf8(block_text_bytes(self@)) ==> r@ == vstd::utf8::decode_utf8(
                block_text_bytes(self@),
            ),
    {
        let all = self.to_bytes();
        if let Some(pad) = self.padding() {
            let end = 64 - pad;
            let mut v: Vec<u8> = Vec::new();
            let mut i: usize = 0;
            while i < end
                invariant
                    end <= 64,
                    all@ == self@,
                    self@.len() == 64,
                    i <= end,
                    v@ == self@.take(i as int),
                decreases end - i,
            {
                v.push(all[i]);
                i += 1;
                assert(v@ =~= self@.take(i as int));
            }
            utf8_lossy_string(v.as_slice())
        } else {
            utf8_lossy_string(all.as_slice())
        }
    }

    /// The bytes as `Debug` prints an array, for debugging: decimal numbers
    /// separated by `", "` in square brackets.
    pub fn to_string(&self) -> (r: String)
        ensures
            r@ == bytes_debug(self@),
    {
        proof {
            reveal_strlit("[");
            reveal_strlit(", ");
            reveal_strlit("]");
        }
        let ghost nums = self@.map_values(|x: u8| decimal(x as nat));
        let mut body = decimal_chars(self.bytes[0] as u64);
        let sep = chars_of(", ");
        let mut i: usize = 1;
        assert(nums.take(1) =~= seq![nums[0]]);
        while i < 64
            invariant
                1 <= i <= 64,
                self@.len() == 64,
                sep@ == ", "@,
                nums == self@.map_values(|x: u8| decimal(x as nat)),
                body@ == join_with(nums.take(i as int), ", "@),
            decreases 64 - i,
        {
            append_chars(&mut body, sep.as_slice());
            let d = decimal_chars(self.bytes[i] as u64);
            append_chars(&mut body, d.as_slice());
            assert(nums.take(i + 1).drop_last() =~= nums.take(i as int));
            assert(nums[i as int] == d@);
            i += 1;
        }
        assert(nums.take(64) =~= nums);
        let mut out = chars_of("[");
        append_chars(&mut out, body.as_slice());
        let close = chars_of("]");
        append_chars(&mut out, close.as_slice());
        string_from_chars(out.as_slice())
    }

    /// Returns the [Block512] as a hexadecimal [String]
    pub fn as_hex(&self) -> (r: String)
        ensures
            r@ == hex_upper(self@),
    {
        let cs = self.hex_chars();
        string_from_chars(cs.as_slice())
    }

    /// The block as upper-case hexadecimal characters.
    pub fn hex_chars(&self) -> (r: Vec<char>)
        ensures
            r@ == hex_upper(self@),
    {
        let mut out: Vec<char> = Vec::new();
        for i in 0..64
            invariant
                self.bytes@.len() == 64,
                out@ == hex_upper(self.bytes@.take(i as int)),
        {
            let b = self.bytes[i];
            out.push(hex_digit_char(b / 16));
            out.push(hex_digit_char(b % 16));
            assert(self.bytes@.take(i + 1).drop_last() =~= self.bytes@.take(i as int));
            assert(out@ =~= hex_upper(self.bytes@.take(i + 1)));
        }
        assert(self.bytes@.take(64) =~= self.bytes@);
        out
    }

    /// Creates a new [Block512] from a hexadecimal [String]
    pub fn from_hex(hex: &str) -> (r: Block512)
        requires
            valid_hex(hex@),
        ensures
            r@ == block_of_bytes(hex_bytes(hex@)),
    {
        let cs = chars_of(hex);
        let bytes = hex_chars_to_bytes(cs.as_slice());
        Self::from_bytes_vec(&bytes)
    }

    /// Creates a new [Block512] from hexadecimal characters.
    pub fn from_hex_chars(cs: &[char]) -> (r: Block512)
        requires
            valid_hex(cs@),
        ensures
            r@ == block_of_bytes(hex_bytes(cs@)),
    {
        let bytes = hex_chars_to_bytes(cs);
        Self::from_bytes_vec(&bytes)
    }

    /// Returns the SHA512 hash of the given &str
    pub fn get_hash(password: &str) -> (r: Block512)
        ensures
            r@ == sha512(vstd::utf8::encode_utf8(password@)),
    {
        let digest = sha512_digest(password.as_bytes());
        assert(block_of_bytes(digest@) =~= digest@);
        Block512::from_bytes(digest.as_slice())
    }

    /// Returns the SHA512 hash of the given &str as String
    pub fn get_hash_string(password: &str) -> (r: String)
        ensures
            r@ == hex_upper(sha512(vstd::utf8::encode_utf8(password@))),
    {
        Block512::get_hash(password).as_hex()
    }

    /// The byte-wise exclusive or of two blocks (`&a ^ &b`).
    pub fn bitxor(&self, rhs: &Block512) -> (r: Block512)
        ensures
            r@ == xor_bytes(self@, rhs@),
    {
        let mut out = Block512::new();
        for i in 0..64
            invariant
                self.bytes@.len() == 64,
                rhs.bytes@.len() == 64,
                out.bytes@.len() == 64,
                forall|j: int| 0 <= j < i ==> out.bytes@[j] == self.bytes@[j] ^ rhs.bytes@[j],
        {
            out.bytes[i] = self.bytes[i] ^ rhs.bytes[i];
        }
        assert(out@ =~= xor_bytes(self@, rhs@));
        out
    }
}

// ------------------------------------------------------------------
// Laws
// ------------------------------------------------------------------

pub proof fn lemma_hex_digit_value(n: u8)
    requires
        n < 16,
    ensures
        is_hex_digit(hex_digit(n)),
        hex_value(hex_digit(n)) == n,
{
}

pub proof fn lemma_hex_upper_shape(bytes: Seq<u8>)
    ensures
        hex_upper(bytes).len() == 2 * bytes.len(),
        forall|k: int|
            0 <= k < bytes.len() ==> {
                &&& #[trigger] hex_upper(bytes)[2 * k] == hex_digit(bytes[k] / 16)
                &&& hex_upper(bytes)[2 * k + 1] == hex_digit(bytes[k] % 16)
            },
    decreases bytes.len(),
{
    if bytes.len() > 0 {
        lemma_hex_upper_shape(bytes.drop_last());
        let h = hex_upper(bytes.drop_last());
        assert forall|k: int| 0 <= k < bytes.len() implies {
            &&& #[trigger] hex_upper(bytes)[2 * k] == hex_digit(bytes[k] / 16)
            &&& hex_upper(bytes)[2 * k + 1] == hex_digit(bytes[k] % 16)
        } by {
            if k < bytes.len() - 1 {
                assert(bytes.drop_last()[k] == bytes[k]);
            }
        }
    }
}

/// Reading back the hexadecimal form of any bytes gives those bytes: the
/// form is valid for `from_hex` and stands for exactly them.
pub proof fn law_hex_bytes_roundtrip(bytes: Seq<u8>)
    ensures
        valid_hex(hex_upper(bytes)),
        hex_bytes(hex_upper(bytes)) == bytes,
{
    lemma_hex_upper_shape(bytes);
    let h = hex_upper(bytes);
    assert forall|k: int| 0 <= k < h.len() / 2 implies #[trigger] hex_pair_ok(h[2 * k], h[2 * k + 1]) by {
        lemma_hex_digit_value(bytes[k] / 16);
        lemma_hex_digit_value(bytes[k] % 16);
    }
    assert forall|k: int| 0 <= k < bytes.len() implies hex_bytes(h)[k] == bytes[k] by {
        lemma_hex_digit_value(bytes[k] / 16);
        lemma_hex_digit_value(bytes[k] % 16);
        assert(h[2 * k] == hex_digit(bytes[k] / 16));
        let b = bytes[k];
        assert(b == (b / 16) * 16 + b % 16);
    }
    assert(hex_bytes(h) =~= bytes);
}

/// `Block512::from_hex` of a block's `as_hex` is that block again.
pub proof fn law_block_hex_roundtrip(b: Block512)
    ensures
        valid_hex(hex_upper(b@)),
        block_of_bytes(hex_bytes(hex_upper(b@))) == b@,
{
    law_hex_bytes_roundtrip(b@);
    assert(block_of_bytes(b@) =~= b@);
}

/// A block made from fewer than 64 bytes is recognised as padded, and its
/// bytes without the padding are exactly the bytes it was made from.
pub proof fn law_padding_roundtrip(bytes: Seq<u8>)
    requires
        bytes.len() < 64,
    ensures
        block_padding(block_of_bytes(bytes)) == Some((64 - bytes.len()) as nat),
        block_text_bytes(block_of_bytes(bytes)) == bytes,
{
    let b = block_of_bytes(bytes);
    assert(b[63] == (64 - bytes.len()) as u8);
    assert(block_text_bytes(b) =~= bytes);
}

/// A block made from 64 bytes or more holds the first 64 of them.
pub proof fn law_full_block(bytes: Seq<u8>)
    requires
        bytes.len() >= 64,
    ensures
        block_of_bytes(bytes) == bytes.take(64),
{
    assert(block_of_bytes(bytes) =~= bytes.take(64));
}

/// Exclusive or with the same key twice gives back the block.
pub proof fn law_xor_involution(key: Seq<u8>, b: Seq<u8>)
    requires
        b.len() == 64,
    ensures
        xor_bytes(key, xor_bytes(key, b)) == b,
{
    assert forall|i: int| 0 <= i < 64 implies #[trigger] xor_bytes(key, xor_bytes(key, b))[i] == b[i] by {
        let k = key[i];
        let x = b[i];
        assert(k ^ (k ^ x) == x) by (bit_vector);
    }
    assert(xor_bytes(key, xor_bytes(key, b)) =~= b);
}

impl Bytes for Block512 {
    open spec fn spec_to_bytes(&self) -> Seq<u8> {
        self@
    }

    open spec fn encodable(&self) -> bool {
        true
    }

    open spec fn decodable(bytes: Seq<u8>) -> bool {
        true
    }

    open spec fn decodes_to(bytes: Seq<u8>, v: Self) -> bool {
        v@ == block_of_bytes(bytes)
    }

    /// Creates a new [Block512] from an array of bytes
    ///
    /// For inputting plain text
    fn from_bytes(bytes: &[u8]) -> (r: Block512)
    {
        let v = copy_bytes(bytes);
        Self::from_bytes_vec(&v)
    }

    /// The bytes that make up the block.
    fn to_bytes(&self) -> (r: Vec<u8>)
    {
        let mut v: Vec<u8> = Vec::new();
        for i in 0..64
            invariant
                self.bytes@.len() == 64,
                v@ == self.bytes@.take(i as int),
        {
            v.push(self.bytes[i]);
            assert(v@ =~= self.bytes@.take(i + 1));
        }
        assert(v@ =~= self.bytes@);
        v
    }

}

/// The character of a hexadecimal digit value.
pub fn hex_digit_char(n: u8) -> (c: char)
    requires
        n < 16,
    ensures
        c == hex_digit(n),
{
    if n < 10 {
        (48 + n) as char
    } else {
        (55 + n) as char
    }
}

/// The value of a hexadecimal digit.
fn hex_char_value(c: char) -> (r: u8)
    requires
        is_hex_digit(c),
    ensures
        r == hex_value(c),
        r < 16,
{
    if '0' <= c && c <= '9' {
        (c as u32 - 48) as u8
    } else if 'a' <= c && c <= 'f' {
        (c as u32 - 87) as u8
    } else {
        (c as u32 - 55) as u8
    }
}

/// Whether `c` is a hexadecimal digit.
fn char_is_hex_digit(c: char) -> (r: bool)
    ensures
        r == is_hex_digit(c),
{
    ('0' <= c && c <= '9') || ('a' <= c && c <= 'f') || ('A' <= c && c <= 'F')
}

/// Whether a string can be read by `Block512::from_hex`.
pub fn is_valid_hex(hex: &str) -> (r: bool)
    ensures
        r == valid_hex(hex@),
{
    let cs = chars_of(hex);
    chars_are_valid_hex(cs.as_slice())
}

/// Whether characters can be read as hexadecimal pairs.
pub fn chars_are_valid_hex(cs: &[char]) -> (r: bool)
    ensures
        r == valid_hex(cs@),
{
    if cs.len() % 2 != 0 {
        return false;
    }
    let n = cs.len() / 2;
    let mut k: usize = 0;
    while k < n
        invariant
            n == cs@.len() / 2,
            n == cs.len() / 2,
            cs@.len() % 2 == 0,
            k <= n,
            forall|j: int| 0 <= j < k ==> #[trigger] hex_pair_ok(cs@[2 * j], cs@[2 * j + 1]),
        decreases n - k,
    {
        let a = cs[2 * k];
        let b = cs[2 * k + 1];
        if !(char_is_hex_digit(b) && (char_is_hex_digit(a) || a == '+')) {
            assert(!hex_pair_ok(cs@[2 * k as int], cs@[2 * k + 1]));
            return false;
        }
        k += 1;
    }
    true
}

/// The bytes that valid hexadecimal characters stand for.
pub(crate) fn hex_chars_to_bytes(cs: &[char]) -> (r: Vec<u8>)
    requires
        valid_hex(cs@),
    ensures
        r@ == hex_bytes(cs@),
{
    let n = cs.len() / 2;
    let mut out: Vec<u8> = Vec::new();
    let mut k: usize = 0;
    while k < n
        invariant
            n == cs@.len() / 2,
            n == cs.len() / 2,
            valid_hex(cs@),
            k <= n,
            out@ == hex_bytes(cs@).take(k as int),
        decreases n - k,
    {
        let a = cs[2 * k];
        let b = cs[2 * k + 1];
        assert(hex_pair_ok(cs@[2 * k as int], cs@[2 * k + 1]));
        let lo = hex_char_value(b);
        let v = if a == '+' {
            lo
        } else {
            let hi = hex_char_value(a);
            hi * 16 + lo
        };
        out.push(v);
        k += 1;
        assert(out@ =~= hex_bytes(cs@).take(k as int));
    }
    assert(hex_bytes(cs@).take(n as int) =~= hex_bytes(cs@));
    out
}

} // verus!
