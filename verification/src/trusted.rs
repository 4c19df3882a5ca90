//! Wrappers around the outside crates that the library relies on. Each
//! wrapper's contract states what the outside call is documented to do;
//! nothing more is assumed of it.

use std::io::Read;
use std::io::Write;
use vstd::prelude::*;

verus! {

/// The compressed form that flate2's gzip encoder produces for the
/// given bytes, at the default compression level.
pub uninterp spec fn gzip_of(data: Seq<u8>) -> Seq<u8>;

/// The `YYYYMMDD_HHMMSS` rendering (UTC) of an epoch timestamp in
/// milliseconds, as chrono formats it.
pub uninterp spec fn timestamp_code_of(ms: int) -> Seq<char>;

/// The hyphenated text form of a 128-bit identifier, as the uuid crate
/// renders it.
pub uninterp spec fn uuid_text_of(id: u128) -> Seq<char>;

/// Relies on uuid's `Uuid::new_v4`: a freshly drawn random identifier.
/// Nothing is promised of the value.
#[verifier::external_body]
pub fn fresh_id() -> u128 {
    uuid::Uuid::new_v4().as_u128()
}

/// Relies on chrono's `Utc::now`: the wall clock in milliseconds since
/// the epoch. Nothing is promised of the value.
#[verifier::external_body]
pub fn now_millis() -> u64 {
    chrono::Utc::now().timestamp_millis() as u64
}

/// Relies on fastrand's `u64`, which is documented to return a random
/// value within the given range and to panic only on an empty range.
#[verifier::external_body]
pub fn random_in_range(lo: u64, hi: u64) -> (r: u64)
    requires
        lo <= hi,
    ensures
        lo <= r <= hi,
{
    fastrand::u64(lo..=hi)
}

/// Relies on num_cpus's `get`, which is documented to always return at
/// least 1.
#[verifier::external_body]
pub fn cpu_count() -> (r: usize)
    ensures
        r >= 1,
{
    num_cpus::get()
}

/// Relies on std's `String::from_utf8`: it succeeds exactly on valid
/// UTF-8 and the resulting string holds exactly the given bytes.
#[verifier::external_body]
pub fn string_from_utf8(v: Vec<u8>) -> (r: Option<String>)
    ensures
        r is Some <==> vstd::utf8::valid_utf8(v@),
        r matches Some(s) ==> vstd::utf8::encode_utf8(s@) == v@,
{
    match String::from_utf8(v) {
        Ok(s) => Some(s),
        Err(_) => None,
    }
}

/// Relies on flate2's `write::GzEncoder` at the default level: its
/// output is a function of the input bytes alone (the gzip header it
/// writes carries a zero timestamp and a fixed operating-system byte).
/// Writing into a `Vec` sink cannot fail.
#[verifier::external_body]
pub fn gzip_bytes(data: &Vec<u8>) -> (r: Vec<u8>)
    ensures
        r@ == gzip_of(data@),
{
    let mut enc = flate2::write::GzEncoder::new(Vec::new(), flate2::Compression::default());
    enc.write_all(data.as_slice()).unwrap();
    enc.finish().unwrap()
}

/// Holds when `r` is what inverting gzip compression returns for
/// `data`: whenever `data` is the compressed form of some original
/// bytes, `r` carries exactly those bytes.
pub open spec fn gunzip_inverts(data: Seq<u8>, r: Option<Vec<u8>>) -> bool {
    forall|orig: Seq<u8>| data == gzip_of(orig) ==> (r matches Some(v) && v@ == orig)
}

/// Relies on flate2's `read::GzDecoder`, which is documented to invert
/// gzip compression: on the output of `gzip_bytes` it returns the
/// original bytes, and on input that is not a gzip stream it fails.
#[verifier::external_body]
pub fn gunzip_bytes(data: &Vec<u8>) -> (r: Option<Vec<u8>>)
    ensures
        gunzip_inverts(data@, r),
{
    let mut dec = flate2::read::GzDecoder::new(data.as_slice());
    let mut out = Vec::new();
    match dec.read_to_end(&mut out) {
        Ok(_) => Some(out),
        Err(_) => None,
    }
}

/// Relies on chrono's `DateTime::from_timestamp_millis` and `format`:
/// the `%Y%m%d_%H%M%S` rendering of an in-range timestamp is a function
/// of the timestamp alone and is 15 characters long for years below
/// 10000, which the bound on `ms` guarantees.
#[verifier::external_body]
pub fn timestamp_code(ms: u64) -> (r: String)
    requires
        ms < 100_000_000_000_000,
    ensures
        r@ == timestamp_code_of(ms as int),
        r@.len() == 15,
{
    let dt = chrono::DateTime::<chrono::Utc>::from_timestamp_millis(ms as i64).unwrap();
    dt.format("%Y%m%d_%H%M%S").to_string()
}

/// Relies on uuid's `Uuid::from_u128` and its hyphenated formatter,
/// whose 36-character output depends on the identifier alone.
#[verifier::external_body]
pub fn uuid_text(id: u128) -> (r: String)
    ensures
        r@ == uuid_text_of(id),
        r@.len() == 36,
{
    uuid::Uuid::from_u128(id).hyphenated().to_string()
}

} // verus!
