//! The ciphertext codec: the canonical text encoding (base64 over the
//! scheme's binary serialization) used on every boundary, and the library's
//! `Ciphertext` handle, a byte string already checked to have the scheme's
//! wire shape.

use vstd::prelude::*;

use crate::error::AppError;
use crate::fhe::{check_ct_bytes, ct_wire_ok};

verus! {

/// The canonical (standard alphabet, padded) base64 text of a byte string.
/// Encoding is a pure function of the bytes.
pub uninterp spec fn b64_of(b: Seq<u8>) -> Seq<char>;

/// `s` is the canonical encoding of the well-shaped ciphertext bytes `b`:
/// what a successful decode returns.
pub open spec fn decodes_to(s: Seq<char>, b: Seq<u8>) -> bool {
    s == b64_of(b) && ct_wire_ok(b)
}

/// `s` decodes at all.
pub open spec fn decodable(s: Seq<char>) -> bool {
    exists|b: Seq<u8>| decodes_to(s, b)
}

/// The bytes a decodable record decodes to (arbitrary where none exist).
pub open spec fn dec_of(s: Seq<char>) -> Seq<u8> {
    choose|b: Seq<u8>| decodes_to(s, b)
}

/// The codec round trip: a well-shaped ciphertext's canonical encoding
/// decodes back to it, so encode/decode preserve the decryptable content.
pub proof fn lemma_codec_round_trip(b: Seq<u8>)
    requires
        ct_wire_ok(b),
    ensures
        decodes_to(b64_of(b), b),
        decodable(b64_of(b)),
{
    assert(decodes_to(b64_of(b), b));
}

/// An opaque encrypted integer, carried as the scheme's binary
/// serialization.  A value of this type always has the scheme's wire shape.
#[derive(Debug)]
pub struct Ciphertext {
    bytes: Vec<u8>,
}

impl View for Ciphertext {
    type V = Seq<u8>;

    closed spec fn view(&self) -> Seq<u8> {
        self.bytes@
    }
}

impl Ciphertext {
    /// Whether this handle is well shaped; every constructor establishes it.
    pub open spec fn wf(self) -> bool {
        ct_wire_ok(self@)
    }

    /// Checks raw bytes against the scheme's wire shape and wraps them.
    pub fn from_bytes(bytes: Vec<u8>) -> (r: Result<Ciphertext, AppError>)
        ensures
            r matches Ok(c) ==> c@ == bytes@ && c.wf(),
            r is Ok <==> ct_wire_ok(bytes@),
            r matches Err(e) ==> e == AppError::MalformedCiphertext,
    {
        if check_ct_bytes(&bytes) {
            Ok(Ciphertext { bytes })
        } else {
            Err(AppError::MalformedCiphertext)
        }
    }

    /// The underlying serialized bytes.
    pub fn as_bytes(&self) -> (r: &Vec<u8>)
        ensures
            r@ == self@,
    {
        &self.bytes
    }
}

/// An explicit elementwise copy, so the contract pins the bytes.
pub(crate) fn clone_bytes(b: &Vec<u8>) -> (r: Vec<u8>)
    ensures
        r@ == b@,
{
    let mut out: Vec<u8> = Vec::new();
    let mut i: usize = 0;
    while i < b.len()
        invariant
            i <= b.len(),
            out@ == b@.take(i as int),
        decreases b.len() - i,
    {
        out.push(b[i]);
        proof {
            assert(out@ =~= b@.take(i + 1 as int));
        }
        i = i + 1;
    }
    proof {
        assert(out@ =~= b@);
    }
    out
}

/// Relies on base64's `Engine::encode` with the `STANDARD` engine: the
/// canonical padded text of the bytes.
#[verifier::external_body]
fn b64_encode(b: &Vec<u8>) -> (r: String)
    ensures
        r@ == b64_of(b@),
{
    base64::Engine::encode(&base64::engine::general_purpose::STANDARD, b)
}

/// Relies on base64's `Engine::decode` with the `STANDARD` engine, which
/// requires canonical padding and rejects set trailing bits: it accepts
/// exactly the canonical encodings and returns the unique preimage.
#[verifier::external_body]
fn b64_decode(s: &str) -> (r: Result<Vec<u8>, AppError>)
    ensures
        r matches Ok(b) ==> s@ == b64_of(b@) && forall|d: Seq<u8>| s@ == b64_of(d) ==> d == b@,
        r is Err ==> forall|d: Seq<u8>| s@ != b64_of(d),
        r matches Err(e) ==> e == AppError::MalformedCiphertext,
{
    match base64::Engine::decode(&base64::engine::general_purpose::STANDARD, s) {
        Ok(b) => Ok(b),
        Err(_) => Err(AppError::MalformedCiphertext),
    }
}

/// Encodes raw bytes as canonical base64 text.
pub fn encode_bytes(b: &Vec<u8>) -> (r: String)
    ensures
        r@ == b64_of(b@),
{
    b64_encode(b)
}

/// Decodes canonical base64 text back to the unique bytes it encodes.
pub fn decode_bytes(s: &str) -> (r: Result<Vec<u8>, AppError>)
    ensures
        r matches Ok(b) ==> s@ == b64_of(b@) && forall|d: Seq<u8>| s@ == b64_of(d) ==> d == b@,
        (exists|d: Seq<u8>| s@ == b64_of(d)) ==> r is Ok,
        r matches Err(e) ==> e == AppError::MalformedCiphertext,
{
    b64_decode(s)
}

/// Encodes a ciphertext for transport.  Encoding never reads plaintext.
pub fn encode_ciphertext(c: &Ciphertext) -> (r: String)
    ensures
        r@ == b64_of(c@),
{
    b64_encode(c.as_bytes())
}

/// Decodes transported text back to a ciphertext, rejecting anything that is
/// not the canonical encoding of bytes with the scheme's wire shape.  On the
/// output of `encode_ciphertext` this returns the encoded ciphertext itself:
/// the codec round trip preserves the bytes, hence the decryptable content.
pub fn decode_ciphertext(s: &str) -> (r: Result<Ciphertext, AppError>)
    ensures
        r matches Ok(c) ==> decodes_to(s@, c@) && c.wf(),
        r is Ok <==> decodable(s@),
        r matches Ok(c) ==> forall|b: Seq<u8>| decodes_to(s@, b) ==> b == c@,
        r matches Err(e) ==> e == AppError::MalformedCiphertext,
{
    let bytes = match b64_decode(s) {
        Ok(b) => b,
        Err(e) => {
            proof {
                assert(!decodable(s@)) by {
                    assert forall|b: Seq<u8>| !decodes_to(s@, b) by {
                        if s@ == b64_of(b) {
                            assert(false);
                        }
                    }
                }
            }
            return Err(e);
        },
    };
    match Ciphertext::from_bytes(bytes) {
        Ok(c) => Ok(c),
        Err(e) => {
            proof {
                assert(!decodable(s@)) by {
                    assert forall|b: Seq<u8>| !decodes_to(s@, b) by {}
                }
            }
            Err(e)
        },
    }
}

} // verus!
