//! The key manager.
//!
//! A key pair is generated once, as an explicit administrative action, and
//! persisted as one record; the evaluation half goes to the server, the
//! secret half stays with the decrypting client.  The persisted record is a
//! length-prefixed framing of the two byte strings, parsed and checked here;
//! a missing or corrupt record is `KeyError`, fatal at startup.

use vstd::prelude::*;

use crate::error::AppError;
use crate::fhe::{check_ek_bytes, check_sk_bytes, ek_wire_ok, gen_keys_raw, paired_keys,
    sk_wire_ok};

verus! {

/// The little-endian bytes of a 64-bit length prefix.
pub open spec fn le_bytes(x: u64) -> Seq<u8> {
    seq![
        (x & 0xff) as u8,
        ((x >> 8) & 0xff) as u8,
        ((x >> 16) & 0xff) as u8,
        ((x >> 24) & 0xff) as u8,
        ((x >> 32) & 0xff) as u8,
        ((x >> 40) & 0xff) as u8,
        ((x >> 48) & 0xff) as u8,
        ((x >> 56) & 0xff) as u8,
    ]
}

/// The 64-bit value read back from eight little-endian bytes.
pub open spec fn u64_of_le(b: Seq<u8>) -> u64 {
    (b[0] as u64) | ((b[1] as u64) << 8) | ((b[2] as u64) << 16) | ((b[3] as u64) << 24)
        | ((b[4] as u64) << 32) | ((b[5] as u64) << 40) | ((b[6] as u64) << 48)
        | ((b[7] as u64) << 56)
}

/// Reading back the little-endian bytes of a value yields the value.
pub proof fn lemma_le_round_trip(x: u64)
    ensures
        u64_of_le(le_bytes(x)) == x,
{
    let b = le_bytes(x);
    assert(b[0] == (x & 0xff) as u8);
    assert(b[1] == ((x >> 8) & 0xff) as u8);
    assert(b[2] == ((x >> 16) & 0xff) as u8);
    assert(b[3] == ((x >> 24) & 0xff) as u8);
    assert(b[4] == ((x >> 32) & 0xff) as u8);
    assert(b[5] == ((x >> 40) & 0xff) as u8);
    assert(b[6] == ((x >> 48) & 0xff) as u8);
    assert(b[7] == ((x >> 56) & 0xff) as u8);
    assert((((x & 0xff) as u8) as u64) | (((((x >> 8) & 0xff) as u8) as u64) << 8)
        | (((((x >> 16) & 0xff) as u8) as u64) << 16) | (((((x >> 24) & 0xff) as u8) as u64) << 24)
        | (((((x >> 32) & 0xff) as u8) as u64) << 32) | (((((x >> 40) & 0xff) as u8) as u64) << 40)
        | (((((x >> 48) & 0xff) as u8) as u64) << 48) | (((((x >> 56) & 0xff) as u8) as u64) << 56)
        == x) by (bit_vector);
}

/// Writing back the value read from eight bytes yields the bytes.
pub proof fn lemma_le_bytes_of(b: Seq<u8>)
    requires
        b.len() == 8,
    ensures
        le_bytes(u64_of_le(b)) == b,
{
    let b0 = b[0];
    let b1 = b[1];
    let b2 = b[2];
    let b3 = b[3];
    let b4 = b[4];
    let b5 = b[5];
    let b6 = b[6];
    let b7 = b[7];
    let x = u64_of_le(b);
    assert(x == (b0 as u64) | ((b1 as u64) << 8) | ((b2 as u64) << 16) | ((b3 as u64) << 24)
        | ((b4 as u64) << 32) | ((b5 as u64) << 40) | ((b6 as u64) << 48) | ((b7 as u64) << 56));
    let y = (b0 as u64) | ((b1 as u64) << 8) | ((b2 as u64) << 16) | ((b3 as u64) << 24)
        | ((b4 as u64) << 32) | ((b5 as u64) << 40) | ((b6 as u64) << 48) | ((b7 as u64) << 56);
    assert((y & 0xff) as u8 == b0 && ((y >> 8) & 0xff) as u8 == b1
        && ((y >> 16) & 0xff) as u8 == b2 && ((y >> 24) & 0xff) as u8 == b3
        && ((y >> 32) & 0xff) as u8 == b4 && ((y >> 40) & 0xff) as u8 == b5
        && ((y >> 48) & 0xff) as u8 == b6 && ((y >> 56) & 0xff) as u8 == b7) by (bit_vector)
        requires
            y == (b0 as u64) | ((b1 as u64) << 8) | ((b2 as u64) << 16) | ((b3 as u64) << 24)
                | ((b4 as u64) << 32) | ((b5 as u64) << 40) | ((b6 as u64) << 48)
                | ((b7 as u64) << 56),
    ;
    assert(le_bytes(x) =~= b);
}

/// The persisted record: each half behind its 64-bit length.
pub open spec fn key_file_bytes(sk: Seq<u8>, ek: Seq<u8>) -> Seq<u8> {
    le_bytes(sk.len() as u64) + sk + le_bytes(ek.len() as u64) + ek
}

/// The record parses: a well-framed pair of well-shaped key halves.
pub open spec fn wf_key_file(b: Seq<u8>) -> bool {
    exists|sk: Seq<u8>, ek: Seq<u8>|
        b == #[trigger] key_file_bytes(sk, ek) && sk_wire_ok(sk) && ek_wire_ok(ek)
            && sk.len() <= u64::MAX && ek.len() <= u64::MAX
}

/// One record decomposes in at most one way.
pub proof fn lemma_key_file_bytes_injective(sk1: Seq<u8>, ek1: Seq<u8>, sk2: Seq<u8>, ek2: Seq<u8>)
    requires
        key_file_bytes(sk1, ek1) == key_file_bytes(sk2, ek2),
        sk1.len() <= u64::MAX,
        sk2.len() <= u64::MAX,
    ensures
        sk1 == sk2,
        ek1 == ek2,
{
    let f1 = key_file_bytes(sk1, ek1);
    let f2 = key_file_bytes(sk2, ek2);
    assert(f1.subrange(0, 8) =~= le_bytes(sk1.len() as u64));
    assert(f2.subrange(0, 8) =~= le_bytes(sk2.len() as u64));
    lemma_le_round_trip(sk1.len() as u64);
    lemma_le_round_trip(sk2.len() as u64);
    assert(sk1.len() as u64 == sk2.len() as u64);
    assert(sk1.len() == sk2.len());
    let n = sk1.len() as int;
    assert(sk1 =~= f1.subrange(8, 8 + n));
    assert(sk2 =~= f2.subrange(8, 8 + n));
    assert(sk1 == sk2);
    assert(f1.len() == 16 + sk1.len() + ek1.len());
    assert(f2.len() == 16 + sk2.len() + ek2.len());
    assert(ek1.len() == ek2.len());
    let m = ek1.len() as int;
    assert(ek1 =~= f1.subrange(16 + n, 16 + n + m));
    assert(ek2 =~= f2.subrange(16 + n, 16 + n + m));
}

/// The decryption-capable half of a pair; only the client role holds it.
/// It has no evaluation interface here, and the evaluation key has no
/// decryption interface: capability discipline is carried by the types.
#[derive(Debug)]
pub struct SecretKey {
    bytes: Vec<u8>,
}

impl View for SecretKey {
    type V = Seq<u8>;

    closed spec fn view(&self) -> Seq<u8> {
        self.bytes@
    }
}

impl SecretKey {
    /// Wraps raw bytes; validity is checked where the key is used.
    pub fn from_bytes(bytes: Vec<u8>) -> (r: SecretKey)
        ensures
            r@ == bytes@,
    {
        SecretKey { bytes }
    }

    /// The serialized form.
    pub fn as_bytes(&self) -> (r: &Vec<u8>)
        ensures
            r@ == self@,
    {
        &self.bytes
    }
}

/// The evaluation-only half of a pair: it can compare and add under
/// encryption but cannot decrypt.
#[derive(Debug)]
pub struct EvaluationKey {
    bytes: Vec<u8>,
}

impl View for EvaluationKey {
    type V = Seq<u8>;

    closed spec fn view(&self) -> Seq<u8> {
        self.bytes@
    }
}

impl EvaluationKey {
    /// Wraps raw bytes; validity is checked where the key is used.
    pub fn from_bytes(bytes: Vec<u8>) -> (r: EvaluationKey)
        ensures
            r@ == bytes@,
    {
        EvaluationKey { bytes }
    }

    /// The serialized form.
    pub fn as_bytes(&self) -> (r: &Vec<u8>)
        ensures
            r@ == self@,
    {
        &self.bytes
    }
}

/// Both halves of one key pair, as generated together or loaded back from
/// the persisted record.
#[derive(Debug)]
pub struct KeyPair {
    secret: SecretKey,
    evaluation: EvaluationKey,
}

impl KeyPair {
    /// The secret half's bytes.
    pub closed spec fn sk(self) -> Seq<u8> {
        self.secret@
    }

    /// The evaluation half's bytes.
    pub closed spec fn ek(self) -> Seq<u8> {
        self.evaluation@
    }

    /// Both halves have their expected wire shapes.
    pub open spec fn wf(self) -> bool {
        sk_wire_ok(self.sk()) && ek_wire_ok(self.ek()) && self.sk().len() <= u64::MAX
            && self.ek().len() <= u64::MAX
    }

    /// Generates a fresh matched pair for the scheme's parameter set.  An
    /// explicit, rare administrative action: a new pair makes every
    /// previously stored ciphertext decrypt to garbage.
    pub fn generate() -> (kp: KeyPair)
        ensures
            kp.wf(),
            paired_keys(kp.sk(), kp.ek()),
    {
        let (s, e) = gen_keys_raw();
        // Reading the lengths puts the byte counts' machine bounds in scope.
        let _secret_len = s.len();
        let _evaluation_len = e.len();
        KeyPair { secret: SecretKey { bytes: s }, evaluation: EvaluationKey { bytes: e } }
    }

    /// The evaluation half, for the server role.
    pub fn evaluation_key(&self) -> (r: &EvaluationKey)
        ensures
            r@ == self.ek(),
    {
        &self.evaluation
    }

    /// The secret half, for the client role only.
    pub fn secret_key(&self) -> (r: &SecretKey)
        ensures
            r@ == self.sk(),
    {
        &self.secret
    }

    /// Serializes both halves into the single persisted record.
    pub fn to_file_bytes(&self) -> (r: Vec<u8>)
        ensures
            r@ == key_file_bytes(self.sk(), self.ek()),
    {
        let mut out: Vec<u8> = Vec::new();
        push_le(&mut out, self.secret.bytes.len() as u64);
        append_bytes(&mut out, &self.secret.bytes);
        push_le(&mut out, self.evaluation.bytes.len() as u64);
        append_bytes(&mut out, &self.evaluation.bytes);
        proof {
            assert(out@ =~= key_file_bytes(self.sk(), self.ek()));
        }
        out
    }

    /// Parses the persisted record back into a pair, accepting exactly the
    /// well-framed records whose halves have their expected shapes; anything
    /// else is `KeyError`.
    pub fn from_file_bytes(file: &Vec<u8>) -> (r: Result<KeyPair, AppError>)
        ensures
            r matches Ok(kp) ==> file@ == key_file_bytes(kp.sk(), kp.ek()) && kp.wf(),
            r is Ok <==> wf_key_file(file@),
            r matches Err(e) ==> e == AppError::KeyError,
    {
        let len = file.len();
        if len < 16 {
            proof {
                if wf_key_file(file@) {
                    lemma_key_file_facts(file@);
                }
            }
            return Err(AppError::KeyError);
        }
        let n1 = read_le(file, 0);
        if n1 > (len - 16) as u64 {
            proof {
                if wf_key_file(file@) {
                    lemma_key_file_facts(file@);
                }
            }
            return Err(AppError::KeyError);
        }
        let n1u = n1 as usize;
        let n2 = read_le(file, 8 + n1u);
        if n2 != (len - 16 - n1u) as u64 {
            proof {
                if wf_key_file(file@) {
                    lemma_key_file_facts(file@);
                }
            }
            return Err(AppError::KeyError);
        }
        let skb = copy_range(file, 8, 8 + n1u);
        let ekb = copy_range(file, 16 + n1u, len);
        if !check_sk_bytes(&skb) {
            proof {
                if wf_key_file(file@) {
                    lemma_key_file_facts(file@);
                }
            }
            return Err(AppError::KeyError);
        }
        if !check_ek_bytes(&ekb) {
            proof {
                if wf_key_file(file@) {
                    lemma_key_file_facts(file@);
                }
            }
            return Err(AppError::KeyError);
        }
        proof {
            lemma_le_bytes_of(file@.subrange(0, 8));
            lemma_le_bytes_of(file@.subrange(8 + n1u as int, 16 + n1u as int));
            assert(skb@.len() as u64 == n1);
            assert(ekb@.len() as u64 == n2);
            assert(file@ =~= file@.subrange(0, 8) + file@.subrange(8, 8 + n1u as int)
                + file@.subrange(8 + n1u as int, 16 + n1u as int)
                + file@.subrange(16 + n1u as int, len as int));
            assert(file@ == key_file_bytes(skb@, ekb@));
        }
        Ok(KeyPair { secret: SecretKey { bytes: skb }, evaluation: EvaluationKey { bytes: ekb } })
    }
}

/// The framing facts a well-formed record satisfies, phrased over the raw
/// bytes; each rejecting branch of the parser refutes one of them.
proof fn lemma_key_file_facts(b: Seq<u8>)
    requires
        wf_key_file(b),
    ensures
        b.len() >= 16,
        u64_of_le(b.subrange(0, 8)) <= b.len() - 16,
        ({
            let n1 = u64_of_le(b.subrange(0, 8)) as int;
            u64_of_le(b.subrange(8 + n1, 16 + n1)) == b.len() - 16 - n1
                && sk_wire_ok(b.subrange(8, 8 + n1))
                && ek_wire_ok(b.subrange(16 + n1, b.len() as int))
        }),
{
    let (sk, ek) = choose|sk: Seq<u8>, ek: Seq<u8>|
        b == #[trigger] key_file_bytes(sk, ek) && sk_wire_ok(sk) && ek_wire_ok(ek)
            && sk.len() <= u64::MAX && ek.len() <= u64::MAX;
    assert(b.subrange(0, 8) =~= le_bytes(sk.len() as u64));
    lemma_le_round_trip(sk.len() as u64);
    let n1 = sk.len() as int;
    assert(b.subrange(8, 8 + n1) =~= sk);
    assert(b.subrange(8 + n1, 16 + n1) =~= le_bytes(ek.len() as u64));
    lemma_le_round_trip(ek.len() as u64);
    assert(b.subrange(16 + n1, b.len() as int) =~= ek);
}

/// Appends the little-endian bytes of `x`.
fn push_le(v: &mut Vec<u8>, x: u64)
    ensures
        final(v)@ == old(v)@ + le_bytes(x),
{
    v.push((x & 0xff) as u8);
    v.push(((x >> 8) & 0xff) as u8);
    v.push(((x >> 16) & 0xff) as u8);
    v.push(((x >> 24) & 0xff) as u8);
    v.push(((x >> 32) & 0xff) as u8);
    v.push(((x >> 40) & 0xff) as u8);
    v.push(((x >> 48) & 0xff) as u8);
    v.push(((x >> 56) & 0xff) as u8);
    proof {
        assert(v@ =~= old(v)@ + le_bytes(x));
    }
}

/// Appends a copy of `b`.
fn append_bytes(v: &mut Vec<u8>, b: &Vec<u8>)
    ensures
        final(v)@ == old(v)@ + b@,
{
    let mut i: usize = 0;
    while i < b.len()
        invariant
            i <= b.len(),
            v@ == old(v)@ + b@.take(i as int),
        decreases b.len() - i,
    {
        v.push(b[i]);
        proof {
            assert(v@ =~= old(v)@ + b@.take(i as int + 1));
        }
        i = i + 1;
    }
    proof {
        assert(v@ =~= old(v)@ + b@);
    }
}

/// Reads a 64-bit little-endian value at `off`.
fn read_le(b: &Vec<u8>, off: usize) -> (r: u64)
    requires
        off + 8 <= b@.len(),
    ensures
        r == u64_of_le(b@.subrange(off as int, off as int + 8)),
{
    let blen = b.len();
    let r = (b[off] as u64) | ((b[off + 1] as u64) << 8u64) | ((b[off + 2] as u64) << 16u64)
        | ((b[off + 3] as u64) << 24u64) | ((b[off + 4] as u64) << 32u64)
        | ((b[off + 5] as u64) << 40u64) | ((b[off + 6] as u64) << 48u64)
        | ((b[off + 7] as u64) << 56u64);
    proof {
        let s = b@.subrange(off as int, off as int + 8);
        assert(s[0] == b@[off as int] && s[1] == b@[off as int + 1] && s[2] == b@[off as int + 2]
            && s[3] == b@[off as int + 3] && s[4] == b@[off as int + 4]
            && s[5] == b@[off as int + 5] && s[6] == b@[off as int + 6]
            && s[7] == b@[off as int + 7]);
    }
    r
}

/// Copies `b[start..end]`.
fn copy_range(b: &Vec<u8>, start: usize, end: usize) -> (r: Vec<u8>)
    requires
        start <= end,
        end <= b@.len(),
    ensures
        r@ == b@.subrange(start as int, end as int),
{
    let mut out: Vec<u8> = Vec::new();
    let mut i: usize = start;
    while i < end
        invariant
            start <= i <= end,
            end <= b@.len(),
            out@ == b@.subrange(start as int, i as int),
        decreases end - i,
    {
        out.push(b[i]);
        proof {
            assert(out@ =~= b@.subrange(start as int, i as int + 1));
        }
        i = i + 1;
    }
    out
}

} // verus!
