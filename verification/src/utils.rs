//! Digest, encoding and key primitives, together with small verified
//! helpers over bytes and strings that the rest of the library shares.
//!
//! The cryptographic primitives are consumed as opaque functions of their
//! input: each digest gets an uninterpreted name (`sha256_of`,
//! `ripemd160_of`, ...) and the wrappers promise only what the outside
//! crates document, such as the digest length.

use vstd::prelude::*;
use vstd::slice::slice_to_vec;
use vstd::string::StrSliceExecFns;

verus! {

/// The SHA-256 digest of `data`, as ring computes it.
pub uninterp spec fn sha256_of(data: Seq<u8>) -> Seq<u8>;

/// The RIPEMD-160 digest of `data`.
pub uninterp spec fn ripemd160_of(data: Seq<u8>) -> Seq<u8>;

/// The base58 encoding of `data`.
pub uninterp spec fn base58_of(data: Seq<u8>) -> Seq<char>;

/// The bytes that base58 decoding of `s` yields, or `None` when `s` is not
/// a valid base58 string.
pub uninterp spec fn base58_decoded(s: Seq<char>) -> Option<Seq<u8>>;

/// The uncompressed public key carried by a PKCS#8 ECDSA P-256 document.
pub uninterp spec fn public_key_of(pkcs8: Seq<u8>) -> Seq<u8>;

/// Relies on ring's SHA-256 (`ring::digest::Context` with `SHA256`): the
/// digest depends on the input bytes alone and is 32 bytes long.
#[verifier::external_body]
pub fn sha256_digest(data: &[u8]) -> (r: Vec<u8>)
    ensures
        r@ == sha256_of(data@),
        r@.len() == 32,
{
    let mut context = ring::digest::Context::new(&ring::digest::SHA256);
    context.update(data);
    let digest = context.finish();
    digest.as_ref().to_vec()
}

/// Relies on the crypto crate's `Ripemd160` digest: the digest depends on
/// the input bytes alone and is 20 bytes long.
#[verifier::external_body]
pub fn ripemd160_digest(data: &[u8]) -> (r: Vec<u8>)
    ensures
        r@ == ripemd160_of(data@),
        r@.len() == 20,
{
    let mut ripemd160 = crypto::ripemd160::Ripemd160::new();
    crypto::digest::Digest::input(&mut ripemd160, data);
    let mut buf: Vec<u8> = vec![0u8; 20];
    crypto::digest::Digest::result(&mut ripemd160, &mut buf);
    buf
}

/// Whether `c` belongs to the base58 alphabet: the digits and letters
/// with `0`, `O`, `I` and `l` left out.
pub open spec fn is_base58_char(c: char) -> bool {
    ||| '1' <= c <= '9'
    ||| ('A' <= c <= 'Z' && c != 'I' && c != 'O')
    ||| ('a' <= c <= 'z' && c != 'l')
}

/// Relies on `bs58::encode` with the default (Bitcoin) alphabet: the
/// encoding depends on the input bytes alone, uses only the base58
/// alphabet, turns each leading zero byte into a leading `1`, and
/// decoding it yields the input back.
#[verifier::external_body]
pub fn base58_encode(data: &[u8]) -> (r: String)
    ensures
        r@ == base58_of(data@),
        base58_decoded(r@) == Some(data@),
        forall|i: int| 0 <= i < r@.len() ==> is_base58_char(#[trigger] r@[i]),
        forall|i: int|
            0 <= i < data@.len() && (forall|j: int| 0 <= j <= i ==> data@[j] == 0u8) ==> i < r@.len()
                && r@[i] == '1',
{
    bs58::encode(data).into_string()
}

/// Relies on `bs58::decode`: the result depends on the input string alone;
/// a string outside the base58 alphabet is rejected.
#[verifier::external_body]
pub fn base58_decode(data: &str) -> (r: Option<Vec<u8>>)
    ensures
        match r {
            Some(v) => base58_decoded(data@) == Some(v@),
            None => base58_decoded(data@) is None,
        },
{
    bs58::decode(data).into_vec().ok()
}

/// Relies on `ring::signature::EcdsaKeyPair::generate_pkcs8` with
/// `ECDSA_P256_SHA256_FIXED_SIGNING`: the document is drawn from the system
/// random source, so nothing is promised of its value beyond being a
/// non-empty PKCS#8 document.
#[verifier::external_body]
pub fn new_key_pair() -> (r: Option<Vec<u8>>)
    ensures
        match r {
            Some(v) => v@.len() > 0,
            None => true,
        },
{
    let rng = ring::rand::SystemRandom::new();
    let pkcs = ring::signature::EcdsaKeyPair::generate_pkcs8(
        &ring::signature::ECDSA_P256_SHA256_FIXED_SIGNING,
        &rng,
    ).ok()?;
    Some(pkcs.as_ref().to_vec())
}

/// Relies on `ring::signature::EcdsaKeyPair::from_pkcs8` and
/// `ring::signature::KeyPair::public_key`: the public key is a function of
/// the PKCS#8 document alone — the uncompressed P-256 point, 65 bytes —
/// and an invalid document is rejected.
#[verifier::external_body]
pub fn public_key_from_pkcs8(pkcs8: &[u8]) -> (r: Option<Vec<u8>>)
    ensures
        match r {
            Some(v) => v@ == public_key_of(pkcs8@) && v@.len() == 65,
            None => true,
        },
{
    let key_pair = ring::signature::EcdsaKeyPair::from_pkcs8(
        &ring::signature::ECDSA_P256_SHA256_FIXED_SIGNING,
        pkcs8,
    ).ok()?;
    Some(ring::signature::KeyPair::public_key(&key_pair).as_ref().to_vec())
}

/// The character for the hex digit `n`.
pub open spec fn hex_digit(n: u8) -> char
    recommends
        n < 16,
{
    if n < 10 {
        (((n + 0x30) as u8) as char)
    } else {
        (((n + 0x57) as u8) as char)
    }
}

/// The lowercase hex encoding of `data`, high nibble first.
pub open spec fn hex_of(data: Seq<u8>) -> Seq<char> {
    Seq::new(2 * data.len(), |i: int| if i % 2 == 0 {
        hex_digit(data[i / 2] / 16)
    } else {
        hex_digit(data[i / 2] % 16)
    })
}

/// Relies on `data_encoding::HEXLOWER.encode`: lowercase hex, two digits
/// per input byte, high nibble first.
#[verifier::external_body]
pub(crate) fn hex_encode(data: &[u8]) -> (r: String)
    ensures
        r@ == hex_of(data@),
{
    data_encoding::HEXLOWER.encode(data)
}

/// Byte-wise equality of two slices.
pub fn bytes_eq(a: &[u8], b: &[u8]) -> (r: bool)
    ensures
        r == (a@ == b@),
{
    if a.len() != b.len() {
        return false;
    }
    let n = a.len();
    let mut i: usize = 0;
    while i < n
        invariant
            n == a@.len() == b@.len(),
            i <= n,
            forall|j: int| 0 <= j < i ==> a@[j] == b@[j],
        decreases n - i,
    {
        if a[i] != b[i] {
            return false;
        }
        i = i + 1;
    }
    proof {
        assert(a@ =~= b@);
    }
    true
}

/// Character-wise equality of two strings.
pub fn str_eq(a: &str, b: &str) -> (r: bool)
    ensures
        r == (a@ == b@),
{
    let n = a.unicode_len();
    if n != b.unicode_len() {
        return false;
    }
    let mut i: usize = 0;
    while i < n
        invariant
            n == a@.len() == b@.len(),
            i <= n,
            forall|j: int| 0 <= j < i ==> a@[j] == b@[j],
        decreases n - i,
    {
        if a.get_char(i) != b.get_char(i) {
            return false;
        }
        i = i + 1;
    }
    proof {
        assert(a@ =~= b@);
    }
    true
}

/// A copy of the bytes of `v`.
pub fn clone_bytes(v: &[u8]) -> (r: Vec<u8>)
    ensures
        r@ == v@,
{
    slice_to_vec(v)
}

/// Appends all of `src` to `dst`.
pub fn push_bytes(dst: &mut Vec<u8>, src: &[u8])
    ensures
        final(dst)@ == old(dst)@ + src@,
{
    let n = src.len();
    let mut i: usize = 0;
    while i < n
        invariant
            n == src@.len(),
            i <= n,
            dst@ == old(dst)@ + src@.take(i as int),
        decreases n - i,
    {
        dst.push(src[i]);
        proof {
            assert(dst@ =~= old(dst)@ + src@.take(i + 1));
        }
        i = i + 1;
    }
    proof {
        assert(old(dst)@ + src@.take(n as int) =~= old(dst)@ + src@);
    }
}

/// The big-endian bytes of a `u64`.
pub open spec fn u64_be_bytes(x: u64) -> Seq<u8> {
    seq![
        ((x >> 56) as u8),
        ((x >> 48) as u8),
        ((x >> 40) as u8),
        ((x >> 32) as u8),
        ((x >> 24) as u8),
        ((x >> 16) as u8),
        ((x >> 8) as u8),
        (x as u8),
    ]
}

/// The big-endian bytes of an `i64` (two's complement).
pub open spec fn i64_be_bytes(x: i64) -> Seq<u8> {
    u64_be_bytes(x as u64)
}

/// The big-endian bytes of a `u32`.
pub open spec fn u32_be_bytes(x: u32) -> Seq<u8> {
    seq![((x >> 24) as u8), ((x >> 16) as u8), ((x >> 8) as u8), (x as u8)]
}

/// The big-endian bytes of an `i32` (two's complement).
pub open spec fn i32_be_bytes(x: i32) -> Seq<u8> {
    u32_be_bytes(x as u32)
}

/// Writes `x` as eight big-endian bytes.
pub fn u64_to_be_bytes(x: u64) -> (r: Vec<u8>)
    ensures
        r@ == u64_be_bytes(x),
{
    let mut r: Vec<u8> = Vec::new();
    r.push(#[verifier::truncate] ((x >> 56) as u8));
    r.push(#[verifier::truncate] ((x >> 48) as u8));
    r.push(#[verifier::truncate] ((x >> 40) as u8));
    r.push(#[verifier::truncate] ((x >> 32) as u8));
    r.push(#[verifier::truncate] ((x >> 24) as u8));
    r.push(#[verifier::truncate] ((x >> 16) as u8));
    r.push(#[verifier::truncate] ((x >> 8) as u8));
    r.push(#[verifier::truncate] (x as u8));
    proof {
        assert(r@ =~= u64_be_bytes(x));
    }
    r
}

/// Writes `x` as eight big-endian bytes (two's complement).
pub fn i64_to_be_bytes(x: i64) -> (r: Vec<u8>)
    ensures
        r@ == i64_be_bytes(x),
{
    let u: u64 = #[verifier::truncate] (x as u64);
    u64_to_be_bytes(u)
}

/// Writes `x` as four big-endian bytes.
pub fn u32_to_be_bytes(x: u32) -> (r: Vec<u8>)
    ensures
        r@ == u32_be_bytes(x),
{
    let mut r: Vec<u8> = Vec::new();
    r.push(#[verifier::truncate] ((x >> 24) as u8));
    r.push(#[verifier::truncate] ((x >> 16) as u8));
    r.push(#[verifier::truncate] ((x >> 8) as u8));
    r.push(#[verifier::truncate] (x as u8));
    proof {
        assert(r@ =~= u32_be_bytes(x));
    }
    r
}

/// Writes `x` as four big-endian bytes (two's complement).
pub fn i32_to_be_bytes(x: i32) -> (r: Vec<u8>)
    ensures
        r@ == i32_be_bytes(x),
{
    let u: u32 = #[verifier::truncate] (x as u32);
    u32_to_be_bytes(u)
}

} // verus!
