use vstd::prelude::*;
use vstd::string::StrSliceExecFns;
use vstd::utf8::{decode_utf8, encode_utf8, valid_utf8};
use crate::text::string_from_utf8;

verus! {

/// Byte sequences joined end to end, in order.
pub open spec fn concat_bytes(parts: Seq<Seq<u8>>) -> Seq<u8>
    decreases parts.len(),
{
    if parts.len() == 0 {
        seq![]
    } else {
        concat_bytes(parts.drop_last()) + parts.last()
    }
}

/// The little-endian value of a byte sequence.
pub open spec fn le_value(b: Seq<u8>) -> nat
    decreases b.len(),
{
    if b.len() == 0 {
        0
    } else {
        (b[0] + 256 * le_value(b.skip(1))) as nat
    }
}

/// `256` to the power `n`.
pub open spec fn pow256(n: nat) -> nat
    decreases n,
{
    if n == 0 {
        1
    } else {
        256 * pow256((n - 1) as nat)
    }
}

/// What `8usize.to_le_bytes()` (or `8isize.to_le_bytes()`) gives: the
/// value 8 in as many little-endian bytes as a `usize` has.
pub open spec fn eight_le() -> Seq<u8> {
    Seq::new((usize::BITS / 8) as nat, |i: int| if i == 0 { 8u8 } else { 0u8 })
}

/// `8` as little-endian bytes of a `usize`.
fn eight_le_bytes() -> (r: Vec<u8>)
    ensures
        r@ == eight_le(),
{
    let n = usize::BITS / 8;
    let mut r: Vec<u8> = Vec::new();
    let mut i: u32 = 0;
    while i < n
        invariant
            n == usize::BITS / 8,
            i <= n,
            r@ == eight_le().take(i as int),
        decreases n - i,
    {
        r.push(if i == 0 { 8u8 } else { 0u8 });
        i += 1;
        assert(r@ =~= eight_le().take(i as int));
    }
    assert(r@ =~= eight_le());
    r
}

/// Conversion of a value to and from raw bytes.
pub trait Bytes: Sized {
    /// The bytes that `to_bytes` gives.
    spec fn spec_to_bytes(&self) -> Seq<u8>;

    /// Whether `to_bytes` can convert this value (it panics otherwise).
    spec fn encodable(&self) -> bool;

    /// Whether `from_bytes` can convert these bytes (it panics otherwise).
    spec fn decodable(bytes: Seq<u8>) -> bool;

    /// The value that `from_bytes` gives for accepted bytes.
    spec fn decodes_to(bytes: Seq<u8>, v: Self) -> bool;

    fn to_bytes(&self) -> (r: Vec<u8>)
        requires
            self.encodable(),
        ensures
            r@ == self.spec_to_bytes(),
    ;

    fn from_bytes(bytes: &[u8]) -> (r: Self)
        requires
            Self::decodable(bytes@),
        ensures
            Self::decodes_to(bytes@, r),
    ;
}

impl Bytes for String {
    open spec fn spec_to_bytes(&self) -> Seq<u8> {
        encode_utf8(self@)
    }

    open spec fn encodable(&self) -> bool {
        true
    }

    open spec fn decodable(bytes: Seq<u8>) -> bool {
        valid_utf8(bytes)
    }

    open spec fn decodes_to(bytes: Seq<u8>, v: Self) -> bool {
        v@ == decode_utf8(bytes)
    }

    fn to_bytes(&self) -> (r: Vec<u8>) {
        self.as_str().as_bytes_vec()
    }

    fn from_bytes(bytes: &[u8]) -> (r: Self) {
        let v = copy_bytes(bytes);
        match string_from_utf8(v) {
            Some(s) => s,
            None => {
                assert(false);
                String::new()
            },
        }
    }
}

/// A copy of a byte slice.
pub fn copy_bytes(bytes: &[u8]) -> (r: Vec<u8>)
    ensures
        r@ == bytes@,
{
    let mut v: Vec<u8> = Vec::new();
    let mut i: usize = 0;
    while i < bytes.len()
        invariant
            i <= bytes@.len(),
            v@ == bytes@.take(i as int),
        decreases bytes@.len() - i,
    {
        v.push(bytes[i]);
        i += 1;
        assert(v@ =~= bytes@.take(i as int));
    }
    assert(v@ =~= bytes@);
    v
}

proof fn lemma_le_value_bound(b: Seq<u8>)
    ensures
        le_value(b) < pow256(b.len()),
    decreases b.len(),
{
    if b.len() > 0 {
        lemma_le_value_bound(b.skip(1));
        assert(b.skip(1).len() == b.len() - 1);
    }
}

/// The little-endian value of the first eight bytes.
fn le_u64(bytes: &[u8]) -> (r: u64)
    requires
        bytes@.len() >= 8,
    ensures
        r as nat == le_value(bytes@.take(8)),
{
    let ghost b8 = bytes@.take(8);
    let mut v: u64 = 0;
    let mut i: usize = 8;
    proof {
        assert(b8.subrange(8, 8) =~= Seq::<u8>::empty());
        assert(pow256(0) == 1);
    }
    while i > 0
        invariant
            i <= 8,
            bytes@.len() >= 8,
            b8 == bytes@.take(8),
            v as nat == le_value(b8.subrange(i as int, 8)),
        decreases i,
    {
        i -= 1;
        let ghost tail = b8.subrange(i as int, 8);
        proof {
            assert(tail.skip(1) =~= b8.subrange(i + 1, 8));
            lemma_le_value_bound(tail);
            reveal_with_fuel(pow256, 9);
            assert(pow256(8) == 18446744073709551616);
            lemma_pow256_mono((8 - i) as nat, 8);
        }
        v = v * 256 + bytes[i] as u64;
    }
    assert(b8.subrange(0, 8) =~= b8);
    v
}

proof fn lemma_pow256_mono(a: nat, b: nat)
    requires
        a <= b,
    ensures
        pow256(a) <= pow256(b),
    decreases b,
{
    if a < b {
        lemma_pow256_mono(a, (b - 1) as nat);
    }
}

impl Bytes for usize {
    open spec fn spec_to_bytes(&self) -> Seq<u8> {
        eight_le()
    }

    open spec fn encodable(&self) -> bool {
        true
    }

    open spec fn decodable(bytes: Seq<u8>) -> bool {
        bytes.len() >= 8
    }

    open spec fn decodes_to(bytes: Seq<u8>, v: Self) -> bool {
        v == le_value(bytes.take(8)) as u64 as usize
    }

    fn to_bytes(&self) -> (r: Vec<u8>) {
        eight_le_bytes()
    }

    fn from_bytes(bytes: &[u8]) -> (r: Self) {
        le_u64(bytes) as usize
    }
}

impl Bytes for isize {
    open spec fn spec_to_bytes(&self) -> Seq<u8> {
        eight_le()
    }

    open spec fn encodable(&self) -> bool {
        true
    }

    open spec fn decodable(bytes: Seq<u8>) -> bool {
        bytes.len() >= 8
    }

    open spec fn decodes_to(bytes: Seq<u8>, v: Self) -> bool {
        let u = le_value(bytes.take(8));
        v == (if u < 0x8000_0000_0000_0000 {
            u as int
        } else {
            u - 0x1_0000_0000_0000_0000
        }) as i64 as isize
    }

    fn to_bytes(&self) -> (r: Vec<u8>) {
        eight_le_bytes()
    }

    fn from_bytes(bytes: &[u8]) -> (r: Self) {
        let u = le_u64(bytes);
        let x: i64 = if u < 0x8000_0000_0000_0000 {
            u as i64
        } else {
            (u - 0x8000_0000_0000_0000) as i64 + i64::MIN
        };
        x as isize
    }
}

/// The bytes of every element, joined.
pub open spec fn all_bytes<T: Bytes>(v: Seq<T>) -> Seq<u8> {
    concat_bytes(v.map_values(|x: T| x.spec_to_bytes()))
}

impl<T: Bytes> Bytes for Vec<T> {
    open spec fn spec_to_bytes(&self) -> Seq<u8> {
        all_bytes(self@)
    }

    open spec fn encodable(&self) -> bool {
        self@.len() > 0 && forall|i: int| 0 <= i < self@.len() ==> (#[trigger] self@[i]).encodable()
    }

    open spec fn decodable(bytes: Seq<u8>) -> bool {
        let s = vstd::layout::size_of::<T>();
        &&& s > 0
        &&& bytes.len() % s == 0
        &&& forall|k: int| 0 <= k < bytes.len() / s ==> T::decodable(#[trigger] bytes.skip(k * s))
    }

    open spec fn decodes_to(bytes: Seq<u8>, v: Self) -> bool {
        let s = vstd::layout::size_of::<T>();
        &&& v@.len() == bytes.len() / s
        &&& forall|k: int| 0 <= k < v@.len() ==> T::decodes_to(bytes.skip(k * s), #[trigger] v@[k])
    }

    fn to_bytes(&self) -> (r: Vec<u8>) {
        let mut out: Vec<u8> = Vec::new();
        let mut i: usize = 0;
        while i < self.len()
            invariant
                i <= self@.len(),
                forall|j: int| 0 <= j < self@.len() ==> (#[trigger] self@[j]).encodable(),
                out@ == all_bytes(self@.take(i as int)),
            decreases self@.len() - i,
        {
            let part = self[i].to_bytes();
            let ghost before = out@;
            let mut k: usize = 0;
            while k < part.len()
                invariant
                    k <= part@.len(),
                    out@ == before + part@.take(k as int),
                decreases part@.len() - k,
            {
                out.push(part[k]);
                k += 1;
                assert(out@ =~= before + part@.take(k as int));
            }
            proof {
                let t = self@.take(i + 1);
                assert(t.map_values(|x: T| x.spec_to_bytes()).drop_last() =~= self@.take(
                    i as int,
                ).map_values(|x: T| x.spec_to_bytes()));
                assert(part@.take(part@.len() as int) =~= part@);
            }
            i += 1;
        }
        assert(self@.take(self@.len() as int) =~= self@);
        out
    }

    fn from_bytes(bytes: &[u8]) -> (r: Self) {
        let s = core::mem::size_of::<T>();
        let mut vec: Vec<T> = Vec::new();
        let mut pos: usize = 0;
        let ghost n: int = bytes@.len() as int / (s as int);
        proof {
            vstd::arithmetic::div_mod::lemma_fundamental_div_mod(bytes@.len() as int, s as int);
        }
        while pos < bytes.len()
            invariant
                s as nat == vstd::layout::size_of::<T>(),
                Self::decodable(bytes@),
                n == bytes@.len() as int / (s as int),
                bytes@.len() == n * s,
                pos == vec@.len() * s,
                vec@.len() <= n,
                forall|k: int| 0 <= k < vec@.len() ==> T::decodes_to(bytes@.skip(k * s), #[trigger] vec@[k]),
            decreases bytes@.len() - pos,
        {
            let ghost k = vec@.len() as int;
            proof {
                if k >= n {
                    vstd::arithmetic::mul::lemma_mul_inequality(n, k, s as int);
                }
                assert(k < n);
                vstd::arithmetic::mul::lemma_mul_inequality(k + 1, n, s as int);
                assert((k + 1) * s == k * s + s) by (nonlinear_arith);
            }
            let rest = &bytes[pos..bytes.len()];
            assert(rest@ =~= bytes@.skip(k * s));
            let item = T::from_bytes(rest);
            vec.push(item);
            pos = pos + s;
        }
        proof {
            if vec@.len() < n {
                vstd::arithmetic::mul::lemma_mul_strict_inequality(vec@.len() as int, n, s as int);
            }
            if vec@.len() > n {
                vstd::arithmetic::mul::lemma_mul_strict_inequality(n, vec@.len() as int, s as int);
            }
        }
        vec
    }
}

} // verus!

verus! {

/// A string's bytes read back as the same string: `from_bytes` accepts what
/// `to_bytes` gives and decodes it to the same text.
pub proof fn law_string_bytes_roundtrip(s: String)
    ensures
        <String as Bytes>::decodable(s.spec_to_bytes()),
        <String as Bytes>::decodes_to(s.spec_to_bytes(), s),
{
    vstd::utf8::encode_utf8_valid_utf8(s@);
    vstd::utf8::encode_utf8_decode_utf8(s@);
}

} // verus!
