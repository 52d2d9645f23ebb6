//! NUL-terminated byte strings held in byte slices.
//!
//! A C string is modelled by the buffer it starts in: a sequence of bytes
//! that holds at least one zero byte. The string itself is what stands
//! before the first zero byte.
use core::str::Utf8Error;
use vstd::prelude::*;
use vstd::string::StringSliceAdditionalSpecFns;
use vstd::utf8::{decode_utf8, encode_utf8_decode_utf8, valid_utf8};

verus! {

/// `core::str::Utf8Error`, the error of `core::str::from_utf8`. Nothing is
/// known of its inside here: it is handed on as it came.
#[verifier::external_type_specification]
#[verifier::external_body]
pub struct ExUtf8Error(core::str::Utf8Error);

/// The error that `core::str::from_utf8` reports for `bytes`, where they are
/// not well-formed UTF-8. It is a function of the bytes alone: where the
/// first ill-formed sequence starts and how long it is.
pub uninterp spec fn utf8_error(bytes: Seq<u8>) -> Utf8Error;

/// `core::str::from_utf8` succeeds exactly on well-formed UTF-8, and the
/// string slice it then returns consists of the very bytes it was given.
/// On anything else it returns the error named by [`utf8_error`].
pub assume_specification[ core::str::from_utf8 ](v: &[u8]) -> (res: Result<&str, Utf8Error>)
    ensures
        res is Ok <==> valid_utf8(v@),
        res matches Ok(s) ==> s.spec_bytes() == v@,
        res matches Err(e) ==> e == utf8_error(v@),
;

/// Whether `bytes` holds a NUL-terminated string, that is, a zero byte.
pub open spec fn is_c_str(bytes: Seq<u8>) -> bool {
    bytes.contains(0u8)
}

/// Whether `n` is the position of the first zero byte of `bytes`.
pub open spec fn is_terminator(bytes: Seq<u8>, n: int) -> bool {
    &&& 0 <= n < bytes.len()
    &&& bytes[n] == 0
    &&& forall|j: int| 0 <= j < n ==> bytes[j] != 0
}

/// The length of the C string that `bytes` starts with: the position of its
/// first zero byte. Meaningful where `is_c_str(bytes)`.
pub open spec fn c_str_len(bytes: Seq<u8>) -> int
    recommends
        is_c_str(bytes),
{
    choose|n: int| is_terminator(bytes, n)
}

/// The bytes of the C string that `bytes` starts with, terminator excluded.
pub open spec fn c_str_bytes(bytes: Seq<u8>) -> Seq<u8>
    recommends
        is_c_str(bytes),
{
    bytes.subrange(0, c_str_len(bytes))
}

/// A buffer has at most one first zero byte, so a position that is one is
/// the string's length.
pub proof fn lemma_terminator_unique(bytes: Seq<u8>, n: int)
    requires
        is_terminator(bytes, n),
    ensures
        is_c_str(bytes),
        c_str_len(bytes) == n,
{
    let m = c_str_len(bytes);
    assert(is_terminator(bytes, m));
    if m < n {
        assert(bytes[m] != 0);
    } else if n < m {
        assert(bytes[n] != 0);
    }
}

/// A zero byte at `k` is the terminator or stands behind it.
pub proof fn lemma_zero_byte_terminates(bytes: Seq<u8>, k: int)
    requires
        0 <= k < bytes.len(),
        bytes[k] == 0,
    ensures
        is_terminator(bytes, c_str_len(bytes)),
        c_str_len(bytes) <= k,
    decreases k,
{
    if forall|j: int| 0 <= j < k ==> bytes[j] != 0 {
        lemma_terminator_unique(bytes, k);
    } else {
        let j = choose|j: int| 0 <= j < k && bytes[j] == 0;
        lemma_zero_byte_terminates(bytes, j);
    }
}

/// A C string has a terminator, and none of its own bytes is zero.
pub proof fn lemma_c_str_len(bytes: Seq<u8>)
    requires
        is_c_str(bytes),
    ensures
        is_terminator(bytes, c_str_len(bytes)),
        c_str_bytes(bytes).len() == c_str_len(bytes),
        !c_str_bytes(bytes).contains(0u8),
{
    let k = choose|k: int| 0 <= k < bytes.len() && bytes[k] == 0;
    lemma_zero_byte_terminates(bytes, k);
}

/// Scans `bytes` for its terminator and returns the length of the string
/// before it.
pub fn strlen(bytes: &[u8]) -> (len: usize)
    requires
        is_c_str(bytes@),
    ensures
        len == c_str_len(bytes@),
        is_terminator(bytes@, len as int),
{
    let ghost end = c_str_len(bytes@);
    proof {
        lemma_c_str_len(bytes@);
    }
    let mut len: usize = 0;
    while bytes[len] != 0
        invariant
            is_terminator(bytes@, end),
            0 <= len <= end,
            forall|j: int| 0 <= j < len ==> bytes@[j] != 0,
        decreases end - len,
    {
        len = len + 1;
    }
    len
}

/// Whether the C string that `bytes` starts with is well-formed UTF-8.
pub open spec fn c_str_is_utf8(bytes: Seq<u8>) -> bool
    recommends
        is_c_str(bytes),
{
    valid_utf8(c_str_bytes(bytes))
}

/// The text of the C string that `bytes` starts with. Meaningful where
/// `c_str_is_utf8(bytes)`.
pub open spec fn c_str_text(bytes: Seq<u8>) -> Seq<char>
    recommends
        is_c_str(bytes),
        c_str_is_utf8(bytes),
{
    decode_utf8(c_str_bytes(bytes))
}

/// Converts the C string that `bytes` starts with to a string slice, after
/// checking that it is well-formed UTF-8.
///
/// The terminator is found by scanning; what follows it is never read.
pub fn c_str_to_rust(bytes: &[u8]) -> (res: Result<&str, Utf8Error>)
    requires
        is_c_str(bytes@),
    ensures
        res is Ok <==> c_str_is_utf8(bytes@),
        res matches Ok(s) ==> s@ == c_str_text(bytes@),
        res matches Err(e) ==> e == utf8_error(c_str_bytes(bytes@)),
{
    let len: usize = strlen(bytes);
    let parts = &bytes[0..len];
    let res = core::str::from_utf8(parts);
    proof {
        if let Ok(s) = res {
            encode_utf8_decode_utf8(s@);
        }
    }
    res
}

/// Converts the C string that `bytes` starts with to a string slice, for a
/// caller who knows it to be well-formed UTF-8.
pub fn c_str_to_rust_unchecked(bytes: &[u8]) -> (s: &str)
    requires
        is_c_str(bytes@),
        c_str_is_utf8(bytes@),
    ensures
        s@ == c_str_text(bytes@),
{
    c_str_to_rust(bytes).unwrap()
}

} // verus!
