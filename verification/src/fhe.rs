//! The homomorphic primitive layer.
//!
//! The scheme itself (tfhe's radix integers, eight blocks of two message
//! bits, so plaintexts live modulo 2^16) is a trusted black box; this module
//! fixes the contract the rest of the library relies on.  Keys and
//! ciphertexts cross this boundary as their bincode byte serializations, so
//! every contract speaks of plain byte sequences.  bincode's derived
//! serialization of the scheme's types writes plain data and cannot fail,
//! which is what the serializing wrappers rely on to always return.

use vstd::prelude::*;

use crate::error::AppError;
use tfhe::integer::IntegerCiphertext;

verus! {

/// The plaintext modulus of the encoding: eight radix blocks of two message
/// bits.  Encrypted sums are exact only below this bound.
pub const CT_MOD: u64 = 65536;

/// The number of radix blocks a well-formed ciphertext carries.
pub const CT_BLOCKS: usize = 8;

/// What the scheme's decryption returns on the client key deserialized from
/// `sk` and the ciphertext deserialized from `ct`.  Decryption is a pure
/// function of the two byte strings.
pub uninterp spec fn decrypt_of(sk: Seq<u8>, ct: Seq<u8>) -> nat;

/// The two byte strings serialize the halves of one key pair, generated
/// together by `gen_keys_raw` for the scheme's parameter set.
pub uninterp spec fn paired_keys(sk: Seq<u8>, ek: Seq<u8>) -> bool;

/// `ct` serializes a ciphertext honestly produced, under the pair `sk`
/// belongs to, by encryption or by the evaluation operations below.  Values
/// produced under another pair decrypt to garbage, never to an error.
pub uninterp spec fn valid_ct(sk: Seq<u8>, ct: Seq<u8>) -> bool;

/// The bytes deserialize (bincode) as a radix ciphertext of `CT_BLOCKS`
/// blocks whose every block carries the scheme's parameter set (message and
/// carry modulus, ciphertext modulus, keyswitch-then-bootstrap order, and
/// the matching LWE size): the expected wire shape.  A ciphertext of any
/// other parameter set or width is rejected at decode time.
pub uninterp spec fn ct_wire_ok(b: Seq<u8>) -> bool;

/// The bytes deserialize (bincode) as a radix client key of `CT_BLOCKS`
/// blocks whose parameter set is the scheme's and whose secret-key
/// containers have exactly the lengths that parameter set prescribes: the
/// decryption-capable half of a pair.
pub uninterp spec fn sk_wire_ok(b: Seq<u8>) -> bool;

/// The bytes deserialize (bincode) as an integer server key whose moduli,
/// order and keyswitch-key shape (decomposition and both dimensions) are
/// the scheme's.
pub uninterp spec fn ek_core_ok(b: Seq<u8>) -> bool;

/// The bytes deserialize (bincode) as an integer server key whose classic
/// bootstrap key has the scheme's dimensions, with a container of exactly
/// the length those dimensions prescribe.
pub uninterp spec fn ek_bsk_ok(b: Seq<u8>) -> bool;

/// The evaluation-only half of a pair, with no decryption capability: both
/// of its parts have the scheme's shape, containers included.
pub open spec fn ek_wire_ok(b: Seq<u8>) -> bool {
    ek_core_ok(b) && ek_bsk_ok(b)
}

/// The result of an encrypted less-than: an encrypted `1` when the hidden
/// value lies below the threshold, an encrypted `0` otherwise.
pub open spec fn indicator(sk: Seq<u8>, ct: Seq<u8>, t: u32) -> nat {
    if decrypt_of(sk, ct) < t as nat {
        1nat
    } else {
        0nat
    }
}

/// Relies on tfhe's `gen_keys_radix` with the scheme's parameter set
/// (`PARAM_MESSAGE_2_CARRY_2_KS_PBS`, eight blocks): the two
/// returned halves form one matched pair.  bincode's derived serialization
/// of the key types never fails, so the byte forms always exist.
#[verifier::external_body]
pub(crate) fn gen_keys_raw() -> (r: (Vec<u8>, Vec<u8>))
    ensures
        paired_keys(r.0@, r.1@),
        sk_wire_ok(r.0@),
        ek_wire_ok(r.1@),
{
    let (ck, sk) = tfhe::integer::gen_keys_radix(
        tfhe::shortint::parameters::PARAM_MESSAGE_2_CARRY_2_KS_PBS,
        CT_BLOCKS,
    );
    let c = bincode::serialize(&ck).expect("key serialization");
    let s = bincode::serialize(&sk).expect("key serialization");
    (c, s)
}

/// Relies on bincode's `deserialize::<RadixClientKey>`, the key's
/// `num_blocks`, `ShortintParameterSet::pbs_parameters` (total, unlike the
/// unwrapping `parameters` accessor) and the secret keys' size accessors:
/// whether the bytes are a client key of the scheme's width and parameter
/// set whose containers match it.  The polynomial size is compared before
/// the container-derived dimensions, which divide by it.
#[verifier::external_body]
pub(crate) fn check_sk_bytes(b: &Vec<u8>) -> (r: bool)
    ensures
        r == sk_wire_ok(b@),
{
    let p = tfhe::shortint::parameters::PARAM_MESSAGE_2_CARRY_2_KS_PBS;
    let big = p.glwe_dimension.to_equivalent_lwe_dimension(p.polynomial_size);
    bincode::deserialize::<tfhe::integer::RadixClientKey>(b).map_or(false, |k| {
        let blocks = k.num_blocks();
        let ck: tfhe::shortint::ClientKey = k.as_ref().clone().into();
        let (glwe, lwe, params) = ck.into_raw_parts();
        blocks == CT_BLOCKS
            && params.pbs_parameters() == Some(tfhe::shortint::PBSParameters::PBS(p))
            && glwe.polynomial_size() == p.polynomial_size
            && glwe.as_lwe_secret_key().lwe_dimension() == big
            && lwe.lwe_dimension() == p.lwe_dimension
    })
}

/// Relies on bincode's `deserialize::<ServerKey>` and the key's public
/// fields: whether the bytes are an integer server key whose moduli, order
/// and keyswitch-key shape are the scheme's.  The decomposition level and
/// output size are compared (against nonzero scheme values) before the
/// container-derived input dimension, which divides by their product.
#[verifier::external_body]
pub(crate) fn check_ek_core_bytes(b: &Vec<u8>) -> (r: bool)
    ensures
        r == ek_core_ok(b@),
{
    let p = tfhe::shortint::parameters::PARAM_MESSAGE_2_CARRY_2_KS_PBS;
    let big = p.glwe_dimension.to_equivalent_lwe_dimension(p.polynomial_size);
    bincode::deserialize::<tfhe::integer::ServerKey>(b).map_or(false, |k| {
        let k: tfhe::shortint::ServerKey = k.into();
        k.message_modulus == p.message_modulus && k.carry_modulus == p.carry_modulus
            && k.ciphertext_modulus == p.ciphertext_modulus
            && k.pbs_order == tfhe::shortint::PBSOrder::KeyswitchBootstrap
            && k.key_switching_key.decomposition_level_count() == p.ks_level
            && k.key_switching_key.decomposition_base_log() == p.ks_base_log
            && k.key_switching_key.output_lwe_size() == p.lwe_dimension.to_lwe_size()
            && k.key_switching_key.input_key_lwe_dimension() == big
    })
}

/// Relies on bincode's `deserialize::<ServerKey>` and the bootstrap key's
/// accessors: whether the server key's bootstrap half is classic, has the
/// scheme's dimensions, and holds a container of exactly the length those
/// dimensions prescribe, so no operation can meet a short or ragged one.
#[verifier::external_body]
pub(crate) fn check_ek_bsk_bytes(b: &Vec<u8>) -> (r: bool)
    ensures
        r == ek_bsk_ok(b@),
{
    let p = tfhe::shortint::parameters::PARAM_MESSAGE_2_CARRY_2_KS_PBS;
    let glwe = p.glwe_dimension.to_glwe_size();
    let elems = p.polynomial_size.to_fourier_polynomial_size().0 * p.lwe_dimension.0
        * p.pbs_level.0 * glwe.0 * glwe.0;
    bincode::deserialize::<tfhe::integer::ServerKey>(b).map_or(false, |k| {
        let k: tfhe::shortint::ServerKey = k.into();
        let bsk = &k.bootstrapping_key;
        matches!(bsk, tfhe::shortint::server_key::ShortintBootstrappingKey::Classic(_))
            && bsk.input_lwe_dimension() == p.lwe_dimension
            && bsk.glwe_size() == glwe && bsk.polynomial_size() == p.polynomial_size
            && bsk.decomposition_level_count() == p.pbs_level
            && bsk.decomposition_base_log() == p.pbs_base_log
            && bsk.bootstrapping_key_size_elements() == elems
    })
}

/// Both halves of the evaluation key's wire shape, checked together.
pub(crate) fn check_ek_bytes(b: &Vec<u8>) -> (r: bool)
    ensures
        r == ek_wire_ok(b@),
{
    let core = check_ek_core_bytes(b);
    core && check_ek_bsk_bytes(b)
}

/// Relies on bincode's `deserialize::<RadixCiphertext>` and the blocks'
/// public fields: whether the bytes have the scheme's expected ciphertext
/// shape, parameter set included.
#[verifier::external_body]
pub(crate) fn check_ct_bytes(b: &Vec<u8>) -> (r: bool)
    ensures
        r == ct_wire_ok(b@),
{
    let p = tfhe::shortint::parameters::PARAM_MESSAGE_2_CARRY_2_KS_PBS;
    let size = p.glwe_dimension.to_equivalent_lwe_dimension(p.polynomial_size).to_lwe_size();
    match bincode::deserialize::<tfhe::integer::RadixCiphertext>(b) {
        Ok(c) => c.blocks().len() == CT_BLOCKS && c.blocks().iter().all(|k|
            k.message_modulus == p.message_modulus && k.carry_modulus == p.carry_modulus
                && k.pbs_order == tfhe::shortint::PBSOrder::KeyswitchBootstrap
                && k.ct.lwe_size() == size
                && k.ct.ciphertext_modulus() == p.ciphertext_modulus),
        Err(_) => false,
    }
}

/// Relies on tfhe's `RadixClientKey::encrypt`: the fresh ciphertext decrypts
/// to the given plaintext under the same key.  Ciphertext bytes are
/// randomized, so nothing relates two encryptions of one value.  The key
/// bytes must carry the scheme's parameter set with matching containers —
/// the wire check pins both — so the modulus arithmetic inside encryption
/// cannot divide by zero and the result has the scheme's wire shape.
#[verifier::external_body]
pub(crate) fn encrypt_raw(sk: &Vec<u8>, v: u8) -> (r: Vec<u8>)
    requires
        sk_wire_ok(sk@),
    ensures
        valid_ct(sk@, r@),
        ct_wire_ok(r@),
        decrypt_of(sk@, r@) == v as nat,
{
    let key: tfhe::integer::RadixClientKey =
        bincode::deserialize(sk).expect("checked client key");
    let ct: tfhe::integer::RadixCiphertext = key.encrypt(v as u64);
    bincode::serialize(&ct).expect("ciphertext serialization")
}

/// Relies on tfhe's `RadixClientKey::decrypt::<u64>`: returns the plaintext
/// of the ciphertext under this key, the value `decrypt_of` names.  Both
/// byte strings must carry the scheme's one parameter set — the wire checks
/// pin it — so the dimension assertions inside decryption always hold.
#[verifier::external_body]
pub(crate) fn decrypt_raw(sk: &Vec<u8>, ct: &Vec<u8>) -> (r: u64)
    requires
        sk_wire_ok(sk@),
        ct_wire_ok(ct@),
    ensures
        r as nat == decrypt_of(sk@, ct@),
{
    let key: tfhe::integer::RadixClientKey =
        bincode::deserialize(sk).expect("checked client key");
    let c: tfhe::integer::RadixCiphertext =
        bincode::deserialize(ct).expect("checked ciphertext");
    key.decrypt::<u64>(&c)
}

/// Relies on tfhe's `ServerKey::scalar_lt_parallelized` and
/// `BooleanBlock::into_radix`: an encrypted boolean telling whether the
/// hidden value lies below the public scalar, widened back to the scheme's
/// block count.  The evaluator learns nothing of the outcome.  Key and
/// ciphertext must carry the scheme's one parameter set, so the keyswitch
/// and bootstrap dimension assertions inside the comparison always hold.
#[verifier::external_body]
pub(crate) fn lt_raw(ek: &Vec<u8>, ct: &Vec<u8>, t: u32) -> (r: Vec<u8>)
    requires
        ek_wire_ok(ek@),
        ct_wire_ok(ct@),
    ensures
        ct_wire_ok(r@),
        forall|sk: Seq<u8>| #[trigger] paired_keys(sk, ek@) && valid_ct(sk, ct@)
            ==> valid_ct(sk, r@) && decrypt_of(sk, r@) == indicator(sk, ct@, t),
{
    let key: tfhe::integer::ServerKey = bincode::deserialize(ek).expect("checked server key");
    let c: tfhe::integer::RadixCiphertext =
        bincode::deserialize(ct).expect("checked ciphertext");
    let b: tfhe::integer::BooleanBlock = key.scalar_lt_parallelized(&c, t as u64);
    let out: tfhe::integer::RadixCiphertext = b.into_radix(CT_BLOCKS, &key);
    bincode::serialize(&out).expect("ciphertext serialization")
}

/// Relies on tfhe's `ServerKey::add_parallelized`: the encrypted sum of the
/// two hidden values, exact while the sum stays below `CT_MOD` (what the
/// wrapped case yields is left unstated).  Key and ciphertexts must carry
/// the scheme's one parameter set; the result then keeps the left operand's
/// eight-block shape.
#[verifier::external_body]
pub(crate) fn add_raw(ek: &Vec<u8>, a: &Vec<u8>, b: &Vec<u8>) -> (r: Vec<u8>)
    requires
        ek_wire_ok(ek@),
        ct_wire_ok(a@),
        ct_wire_ok(b@),
    ensures
        ct_wire_ok(r@),
        forall|sk: Seq<u8>| #[trigger] paired_keys(sk, ek@) && valid_ct(sk, a@)
            && valid_ct(sk, b@) ==> valid_ct(sk, r@) && (decrypt_of(sk, a@)
            + decrypt_of(sk, b@) < CT_MOD as nat ==> decrypt_of(sk, r@)
            == decrypt_of(sk, a@) + decrypt_of(sk, b@)),
{
    let key: tfhe::integer::ServerKey = bincode::deserialize(ek).expect("checked server key");
    let ca: tfhe::integer::RadixCiphertext =
        bincode::deserialize(a).expect("checked ciphertext");
    let cb: tfhe::integer::RadixCiphertext =
        bincode::deserialize(b).expect("checked ciphertext");
    let out: tfhe::integer::RadixCiphertext = key.add_parallelized(&ca, &cb);
    bincode::serialize(&out).expect("ciphertext serialization")
}

} // verus!
