//! Text helpers shared by the kernel's name and message buffers.

use vstd::prelude::*;
use vstd::string::StringSliceAdditionalSpecFns;
use vstd::utf8::{decode_utf8, encode_utf8_decode_utf8, valid_utf8};

verus! {

/// Decode `v` as UTF-8.
///
/// Wraps `core::str::from_utf8`. Claimed of it: it succeeds exactly when `v`
/// is valid UTF-8, and the text it returns is encoded by exactly the bytes
/// of `v`.
#[verifier::external_body]
pub(crate) fn str_from_utf8(v: &[u8]) -> (r: Option<&str>)
    ensures
        r is Some <==> valid_utf8(v@),
        r matches Some(s) ==> s.spec_bytes() == v@,
{
    core::str::from_utf8(v).ok()
}

/// The text `bytes` decode to, or `fallback` when they are not UTF-8.
pub open spec fn decode_or(bytes: Seq<u8>, fallback: Seq<char>) -> Seq<char> {
    if valid_utf8(bytes) {
        decode_utf8(bytes)
    } else {
        fallback
    }
}

/// Decode `v` as UTF-8, falling back to `fallback` for invalid bytes.
pub fn utf8_or<'a>(v: &'a [u8], fallback: &'a str) -> (s: &'a str)
    ensures
        s@ == decode_or(v@, fallback@),
{
    match str_from_utf8(v) {
        Some(s) => {
            proof {
                encode_utf8_decode_utf8(s@);
            }
            s
        },
        None => fallback,
    }
}

/// Do two strings hold the same text?
pub fn str_eq(a: &str, b: &str) -> (r: bool)
    ensures
        r == (a@ == b@),
{
    let x = a.as_bytes();
    let y = b.as_bytes();
    proof {
        encode_utf8_decode_utf8(a@);
        encode_utf8_decode_utf8(b@);
    }
    if x.len() != y.len() {
        return false;
    }
    let mut i: usize = 0;
    while i < x.len()
        invariant
            x@.len() == y@.len(),
            x@ == a.spec_bytes(),
            y@ == b.spec_bytes(),
            i <= x@.len(),
            forall|k: int| 0 <= k < i ==> x@[k] == y@[k],
        decreases x@.len() - i,
    {
        if x[i] != y[i] {
            return false;
        }
        i += 1;
    }
    assert(x@ =~= y@);
    true
}

/// `b` as a serial terminal wants it: each newline preceded by a carriage
/// return.
pub open spec fn crlf_expand(b: Seq<u8>) -> Seq<u8>
    decreases b.len(),
{
    if b.len() == 0 {
        Seq::empty()
    } else {
        crlf_expand(b.drop_last()) + if b.last() == 0x0Au8 {
            seq![0x0Du8, 0x0Au8]
        } else {
            seq![b.last()]
        }
    }
}

/// The bytes to send to a serial terminal for `s`: `\n` becomes `\r\n`.
pub fn serial_bytes(s: &str) -> (v: Vec<u8>)
    ensures
        v@ == crlf_expand(s.spec_bytes()),
{
    let b = s.as_bytes();
    let mut v: Vec<u8> = Vec::new();
    let mut i: usize = 0;
    while i < b.len()
        invariant
            i <= b@.len(),
            v@ == crlf_expand(b@.take(i as int)),
        decreases b@.len() - i,
    {
        proof {
            assert(b@.take(i + 1).drop_last() =~= b@.take(i as int));
        }
        if b[i] == 0x0Au8 {
            v.push(0x0Du8);
        }
        v.push(b[i]);
        proof {
            assert(v@ =~= crlf_expand(b@.take(i + 1)));
        }
        i += 1;
    }
    proof {
        assert(b@.take(b@.len() as int) =~= b@);
    }
    v
}

} // verus!
