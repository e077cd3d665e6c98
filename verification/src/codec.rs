//! Byte encodings, the content hash and the wall clock.
//!
//! The functions marked as trusted below call into `bincode`, `sha2` and
//! `std`; their contracts are stated from those crates' behaviour and are not
//! proved here.

use vstd::prelude::*;
use vstd::bytes::*;
use vstd::utf8::*;
use vstd::string::*;
use sha2::Digest;

verus! {

/// The canonical encoding of a `u64`: eight bytes, least significant first.
pub open spec fn u64_bytes(v: u64) -> Seq<u8> {
    spec_u64_to_le_bytes(v)
}

/// What the canonical decoder reads from `bytes`: the first eight bytes as
/// a little-endian `u64`. Bytes after those are ignored; fewer than eight
/// cannot be decoded.
pub open spec fn parse_u64(bytes: Seq<u8>) -> Option<u64> {
    if bytes.len() >= 8 {
        Some(spec_u64_from_le_bytes(bytes.subrange(0, 8)))
    } else {
        None
    }
}

/// The canonical encoding of a string: the length in bytes of its UTF-8 form
/// as a `u64`, then those bytes.
pub open spec fn str_bytes(s: Seq<char>) -> Seq<u8> {
    u64_bytes(encode_utf8(s).len() as u64) + encode_utf8(s)
}

/// A timestamp as eight bytes, most significant first.
pub open spec fn be_bytes(v: u64) -> Seq<u8> {
    seq![
        (v >> 56) as u8,
        (v >> 48) as u8,
        (v >> 40) as u8,
        (v >> 32) as u8,
        (v >> 24) as u8,
        (v >> 16) as u8,
        (v >> 8) as u8,
        v as u8,
    ]
}

/// The lower-case hexadecimal SHA-256 digest of `data`.
pub uninterp spec fn sha256_hex(data: Seq<u8>) -> Seq<char>;

/// Milliseconds since the epoch for a clock reading of whole seconds and
/// nanoseconds within the second; `u64::MAX` where that does not fit.
pub open spec fn millis_of(secs: u64, nanos: u32) -> u64 {
    if secs * 1000 + nanos / 1_000_000 <= u64::MAX {
        (secs * 1000 + nanos / 1_000_000) as u64
    } else {
        u64::MAX
    }
}

/// Trusted: `bincode::serialize` on a `u64`. With the default options the
/// value is written as eight little-endian bytes into a fresh vector, which
/// cannot fail.
#[verifier::external_body]
pub(crate) fn encode_u64(v: u64) -> (out: Vec<u8>)
    ensures
        out@ == u64_bytes(v),
{
    bincode::serialize(&v).unwrap_or_default()
}

/// Trusted: `bincode::deserialize` to a `u64`. With the default options it
/// reads eight little-endian bytes, fails where fewer are there, and lets
/// any further bytes pass.
#[verifier::external_body]
pub(crate) fn decode_u64(bytes: &[u8]) -> (out: Option<u64>)
    ensures
        out == parse_u64(bytes@),
{
    bincode::deserialize::<u64>(bytes).ok()
}

/// Trusted: `bincode::serialize` on a `str`. With the default options the
/// byte length is written as a little-endian `u64`, followed by the UTF-8
/// bytes, into a fresh vector, which cannot fail.
#[verifier::external_body]
pub(crate) fn encode_str(s: &str) -> (out: Vec<u8>)
    ensures
        out@ == str_bytes(s@),
{
    bincode::serialize(s).unwrap_or_default()
}

/// Trusted: `sha2::Sha256::digest`, printed in lower-case hexadecimal. The
/// result is a function of the bytes alone; nothing else is claimed of it.
#[verifier::external_body]
pub(crate) fn hex_digest(data: &[u8]) -> (out: String)
    ensures
        out@ == sha256_hex(data@),
{
    format!("{:x}", sha2::Sha256::digest(data))
}

/// Trusted: `String::from_utf8`. It succeeds exactly on well-formed UTF-8
/// and then holds the decoded text.
#[verifier::external_body]
pub(crate) fn utf8_string(bytes: Vec<u8>) -> (out: Option<String>)
    ensures
        match out {
            Some(s) => valid_utf8(bytes@) && s@ == decode_utf8(bytes@),
            None => !valid_utf8(bytes@),
        },
{
    String::from_utf8(bytes).ok()
}

/// The system clock's point in time, opaque to the proofs.
#[verifier::external_type_specification]
#[verifier::external_body]
pub struct ExSystemTime(std::time::SystemTime);

/// Trusted: `std::time::SystemTime::now`. The reading is whatever the
/// machine's clock says; nothing is claimed of it.
#[verifier::external_body]
pub(crate) fn clock_now() -> std::time::SystemTime {
    std::time::SystemTime::now()
}

/// Trusted: `std::time::SystemTime::duration_since`, taken against the Unix
/// epoch. `None` where the clock stands before the epoch.
#[verifier::external_body]
pub(crate) fn since_epoch(t: &std::time::SystemTime) -> Option<std::time::Duration> {
    t.duration_since(std::time::UNIX_EPOCH).ok()
}

/// Trusted: `std::time::Duration::as_secs`, the whole seconds of a duration.
#[verifier::external_body]
pub(crate) fn whole_secs(d: &std::time::Duration) -> u64 {
    d.as_secs()
}

/// Trusted: `std::time::Duration::subsec_nanos`, the nanoseconds within the
/// current second.
#[verifier::external_body]
pub(crate) fn sub_nanos(d: &std::time::Duration) -> u32 {
    d.subsec_nanos()
}

/// Turns a clock reading into milliseconds since the epoch.
pub fn millis(secs: u64, nanos: u32) -> (out: u64)
    ensures
        out == millis_of(secs, nanos),
{
    let sub: u64 = (nanos / 1_000_000) as u64;
    if secs <= (u64::MAX - sub) / 1000 {
        secs * 1000 + sub
    } else {
        u64::MAX
    }
}

/// The current time in milliseconds since the epoch; `0` where the clock
/// stands before the epoch.
pub fn now_millis() -> u64 {
    let t = clock_now();
    match since_epoch(&t) {
        Some(d) => millis(whole_secs(&d), sub_nanos(&d)),
        None => 0,
    }
}

/// Appends `src` to `dst`.
pub fn append_bytes(dst: &mut Vec<u8>, src: &[u8])
    ensures
        final(dst)@ == old(dst)@ + src@,
{
    dst.extend_from_slice(src);
    assert(dst@ =~= old(dst)@ + src@);
}

/// Whether two byte strings are equal.
pub fn bytes_eq(a: &[u8], b: &[u8]) -> (same: bool)
    ensures
        same == (a@ == b@),
{
    if a.len() != b.len() {
        return false;
    }
    let mut i: usize = 0;
    while i < a.len()
        invariant
            a@.len() == b@.len(),
            i <= a@.len(),
            forall|j: int| 0 <= j < i ==> a@[j] == b@[j],
        decreases a.len() - i,
    {
        if a[i] != b[i] {
            return false;
        }
        i = i + 1;
    }
    assert(a@ =~= b@);
    true
}

/// Whether two strings hold the same text.
pub fn str_eq(a: &str, b: &str) -> (same: bool)
    ensures
        same == (a@ == b@),
{
    broadcast use encode_utf8_decode_utf8;

    let same = bytes_eq(a.as_bytes(), b.as_bytes());
    proof {
        if same {
            assert(decode_utf8(encode_utf8(a@)) == decode_utf8(encode_utf8(b@)));
        }
    }
    same
}

/// The eight big-endian bytes of `v`.
pub fn u64_be_bytes(v: u64) -> (out: Vec<u8>)
    ensures
        out@ == be_bytes(v),
{
    let mut out: Vec<u8> = Vec::new();
    out.push((v >> 56) as u8);
    out.push((v >> 48) as u8);
    out.push((v >> 40) as u8);
    out.push((v >> 32) as u8);
    out.push((v >> 24) as u8);
    out.push((v >> 16) as u8);
    out.push((v >> 8) as u8);
    out.push(v as u8);
    assert(out@ =~= be_bytes(v));
    out
}

} // verus!
