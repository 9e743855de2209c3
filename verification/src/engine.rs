//! The evaluation engine.
//!
//! Given the stored, encoded ciphertexts and a set of thresholds, it
//! produces one encrypted aggregate count per threshold, entirely under the
//! evaluation key.  A record that fails to decode is skipped and counted,
//! never aborts the batch; an aggregate over no valid records is
//! `EmptyAggregate`, never an encrypted zero.  Control flow never branches
//! on a hidden value: the evaluator cannot learn any comparison outcome.

use vstd::prelude::*;

use crate::codec::{clone_bytes, decodable, decode_ciphertext, decodes_to, encode_ciphertext,
    Ciphertext, b64_of, dec_of};
use crate::error::AppError;
use crate::fhe::{add_raw, check_ct_bytes, check_ek_bytes, ct_wire_ok, decrypt_of, ek_wire_ok,
    indicator, lt_raw, paired_keys, valid_ct, CT_MOD};
use crate::keys::{EvaluationKey, KeyPair};

verus! {

/// The byte strings under a sequence of ciphertext handles.
pub open spec fn ct_views(cs: Seq<Ciphertext>) -> Seq<Seq<u8>> {
    Seq::new(cs.len(), |i: int| cs[i]@)
}

/// The character strings under a sequence of stored records.
pub open spec fn str_views(ss: Seq<String>) -> Seq<Seq<char>> {
    Seq::new(ss.len(), |i: int| ss[i]@)
}

/// The bytes of the records that decode, in stored order: the batch an
/// aggregate is computed over.
pub open spec fn good_bytes(ss: Seq<Seq<char>>) -> Seq<Seq<u8>>
    decreases ss.len(),
{
    if ss.len() == 0 {
        Seq::empty()
    } else {
        good_bytes(ss.drop_last()) + (if decodable(ss.last()) {
            seq![dec_of(ss.last())]
        } else {
            Seq::empty()
        })
    }
}

/// Every entry is a ciphertext of the pair `sk` belongs to.
pub open spec fn all_valid(sk: Seq<u8>, bs: Seq<Seq<u8>>) -> bool {
    forall|i: int| 0 <= i < bs.len() ==> valid_ct(sk, #[trigger] bs[i])
}

/// The sum of the plaintexts under a batch of ciphertexts.
pub open spec fn sum_plain(sk: Seq<u8>, bs: Seq<Seq<u8>>) -> nat
    decreases bs.len(),
{
    if bs.len() == 0 {
        0
    } else {
        sum_plain(sk, bs.drop_last()) + decrypt_of(sk, bs.last())
    }
}

/// How many plaintexts under a batch lie below the threshold.
pub open spec fn count_under(sk: Seq<u8>, bs: Seq<Seq<u8>>, t: u32) -> nat
    decreases bs.len(),
{
    if bs.len() == 0 {
        0
    } else {
        count_under(sk, bs.drop_last(), t) + indicator(sk, bs.last(), t)
    }
}

/// `outs` holds, entrywise, the encrypted below-`t` indicators of `ins`.
pub open spec fn indicators_of(sk: Seq<u8>, outs: Seq<Seq<u8>>, ins: Seq<Seq<u8>>, t: u32) -> bool {
    outs.len() <= ins.len() && forall|k: int| 0 <= k < outs.len() ==> valid_ct(sk, #[trigger] outs[k])
        && decrypt_of(sk, outs[k]) == indicator(sk, ins[k], t)
}

/// The reduction law behind the aggregate: summing the plaintexts of the
/// per-record indicator ciphertexts yields exactly the number of records
/// whose hidden value lies below the threshold.
pub proof fn lemma_sum_of_indicators(sk: Seq<u8>, ins: Seq<Seq<u8>>, outs: Seq<Seq<u8>>, t: u32)
    requires
        ins.len() == outs.len(),
        forall|k: int| 0 <= k < outs.len() ==> decrypt_of(sk, #[trigger] outs[k])
            == indicator(sk, ins[k], t),
    ensures
        sum_plain(sk, outs) == count_under(sk, ins, t),
    decreases ins.len(),
{
    if ins.len() > 0 {
        assert(forall|k: int| 0 <= k < outs.drop_last().len()
            ==> #[trigger] outs.drop_last()[k] == outs[k] && ins.drop_last()[k] == ins[k]);
        lemma_sum_of_indicators(sk, ins.drop_last(), outs.drop_last(), t);
    }
}

/// The sum of a sequence of plaintext values.
pub open spec fn sum_values(vals: Seq<nat>) -> nat
    decreases vals.len(),
{
    if vals.len() == 0 {
        0
    } else {
        sum_values(vals.drop_last()) + vals.last()
    }
}

/// The summation law: a batch whose entries hide the plaintexts
/// `vals[0] .. vals[n-1]` hides, summed, exactly `vals[0] + .. + vals[n-1]`;
/// with `homomorphic_sum`'s contract, reducing fresh encryptions of those
/// values by encrypted addition yields an encryption of their sum.
pub proof fn lemma_sum_plain_matches(sk: Seq<u8>, bs: Seq<Seq<u8>>, vals: Seq<nat>)
    requires
        bs.len() == vals.len(),
        forall|k: int| 0 <= k < bs.len() ==> decrypt_of(sk, #[trigger] bs[k]) == vals[k],
    ensures
        sum_plain(sk, bs) == sum_values(vals),
    decreases bs.len(),
{
    if bs.len() > 0 {
        assert(forall|k: int| 0 <= k < bs.drop_last().len()
            ==> #[trigger] bs.drop_last()[k] == bs[k] && vals.drop_last()[k] == vals[k]);
        lemma_sum_plain_matches(sk, bs.drop_last(), vals.drop_last());
    }
}

/// A count over a batch never exceeds the batch's size.
pub proof fn lemma_count_le_len(sk: Seq<u8>, bs: Seq<Seq<u8>>, t: u32)
    ensures
        count_under(sk, bs, t) <= bs.len(),
    decreases bs.len(),
{
    if bs.len() > 0 {
        lemma_count_le_len(sk, bs.drop_last(), t);
    }
}

/// A prefix's plaintext sum never exceeds the whole batch's.
pub proof fn lemma_sum_take_le(sk: Seq<u8>, bs: Seq<Seq<u8>>, i: int)
    requires
        0 <= i <= bs.len(),
    ensures
        sum_plain(sk, bs.take(i)) <= sum_plain(sk, bs),
    decreases bs.len() - i,
{
    if i < bs.len() {
        assert(bs.take(i + 1).drop_last() =~= bs.take(i));
        assert(bs.take(i + 1).last() == bs[i]);
        lemma_sum_take_le(sk, bs, i + 1);
    } else {
        assert(bs.take(i) =~= bs);
    }
}

/// The batch of decodable records never outgrows the store.
pub proof fn lemma_good_le_len(ss: Seq<Seq<char>>)
    ensures
        good_bytes(ss).len() <= ss.len(),
    decreases ss.len(),
{
    if ss.len() > 0 {
        lemma_good_le_len(ss.drop_last());
    }
}

/// With ages 20, 30 and 40 stored, the threshold 25 sees one age below it
/// and the threshold 35 sees two.
pub proof fn lemma_threshold_scenario(sk: Seq<u8>, c1: Seq<u8>, c2: Seq<u8>, c3: Seq<u8>)
    requires
        decrypt_of(sk, c1) == 20nat,
        decrypt_of(sk, c2) == 30nat,
        decrypt_of(sk, c3) == 40nat,
    ensures
        count_under(sk, seq![c1, c2, c3], 25) == 1,
        count_under(sk, seq![c1, c2, c3], 35) == 2,
{
    let e = Seq::<Seq<u8>>::empty();
    let s = seq![c1, c2, c3];
    assert(s.drop_last() =~= seq![c1, c2]);
    assert(seq![c1, c2].drop_last() =~= seq![c1]);
    assert(seq![c1].drop_last() =~= e);
    assert(s.last() == c3);
    assert(seq![c1, c2].last() == c2);
    assert(seq![c1].last() == c1);
    assert(count_under(sk, e, 25) == 0 && count_under(sk, e, 35) == 0);
    assert(count_under(sk, seq![c1], 25) == 1 && count_under(sk, seq![c1], 35) == 1);
    assert(count_under(sk, seq![c1, c2], 25) == 1 && count_under(sk, seq![c1, c2], 35) == 2);
}

/// The per-threshold encrypted aggregates over one stored batch, beside the
/// plaintext total and the number of records that had to be skipped.
#[derive(Debug)]
pub struct AggregateResult {
    /// How many records the store held, skipped ones included.
    pub total_users: u64,
    /// How many stored records failed to decode and were left out.
    pub skipped_records: u64,
    /// For each requested threshold, the threshold beside the encoded
    /// encrypted count of records below it.
    pub per_threshold: Vec<(u32, String)>,
}

/// The hypothesis under which an aggregate's contract names its plaintext:
/// the decrypting key is paired with the engine's evaluation key and the
/// stored batch is this pair's.  Each per-threshold claim asks additionally
/// that the threshold's count fit below `CT_MOD`; by `lemma_count_le_len`
/// any batch of fewer than `CT_MOD` valid records satisfies that for every
/// threshold.
pub open spec fn agg_hyp(sk: Seq<u8>, ek: Seq<u8>, stored: Seq<Seq<char>>) -> bool {
    paired_keys(sk, ek) && all_valid(sk, good_bytes(stored))
}

/// Every response entry pairs its threshold with text that decodes to an
/// encrypted count of the records below that threshold, for a store of any
/// size whose requested count does not wrap.
pub open spec fn per_threshold_ok(
    per: Seq<(u32, String)>,
    thresholds: Seq<u32>,
    ek: Seq<u8>,
    stored: Seq<Seq<char>>,
) -> bool {
    forall|jj: int| 0 <= jj < per.len() ==> (#[trigger] per[jj]).0 == thresholds[jj]
        && exists|b: Seq<u8>|
        (#[trigger] decodes_to(per[jj].1@, b)) && forall|sk: Seq<u8>|
            (#[trigger] agg_hyp(sk, ek, stored)) && count_under(
                sk,
                good_bytes(stored),
                thresholds[jj],
            ) < CT_MOD as nat ==> decrypt_of(sk, b) == count_under(
                sk,
                good_bytes(stored),
                thresholds[jj],
            )
}

/// The evaluation side of the protocol: comparison and summation under the
/// evaluation half, with no decryption capability.
pub struct CryptoContext {
    evaluation_key: EvaluationKey,
}

impl View for CryptoContext {
    type V = Seq<u8>;

    closed spec fn view(&self) -> Seq<u8> {
        self.evaluation_key@
    }
}

impl CryptoContext {
    /// Builds the engine around an evaluation key.
    pub fn from_evaluation_key(evaluation_key: EvaluationKey) -> (r: CryptoContext)
        ensures
            r@ == evaluation_key@,
    {
        CryptoContext { evaluation_key }
    }

    /// Builds the engine from a loaded pair, taking only the evaluation
    /// half; the secret half never enters the server role.
    pub fn for_evaluation(kp: &KeyPair) -> (r: CryptoContext)
        ensures
            r@ == kp.ek(),
    {
        let bytes = clone_bytes(kp.evaluation_key().as_bytes());
        CryptoContext { evaluation_key: EvaluationKey::from_bytes(bytes) }
    }

    /// An encrypted below-threshold test: the result hides a `1` when the
    /// hidden age lies below the threshold and a `0` otherwise.  Key and
    /// ciphertext are checked against the scheme's parameter set before the
    /// evaluation runs.
    pub fn homomorphic_less_than(&self, encrypted_age: &Ciphertext, threshold: u32) -> (r: Result<
        Ciphertext,
        AppError,
    >)
        ensures
            r matches Ok(out) ==> out.wf() && forall|sk: Seq<u8>|
                (#[trigger] paired_keys(sk, self@)) && valid_ct(sk, encrypted_age@)
                    ==> valid_ct(sk, out@) && decrypt_of(sk, out@) == indicator(
                    sk,
                    encrypted_age@,
                    threshold,
                ),
            r is Ok <==> ek_wire_ok(self@) && encrypted_age.wf(),
            !ek_wire_ok(self@) ==> r == Err::<Ciphertext, AppError>(AppError::KeyError),
            ek_wire_ok(self@) && !encrypted_age.wf() ==> r == Err::<Ciphertext, AppError>(
                AppError::MalformedCiphertext,
            ),
    {
        if !check_ek_bytes(self.evaluation_key.as_bytes()) {
            return Err(AppError::KeyError);
        }
        if !check_ct_bytes(encrypted_age.as_bytes()) {
            return Err(AppError::MalformedCiphertext);
        }
        let bytes = lt_raw(self.evaluation_key.as_bytes(), encrypted_age.as_bytes(), threshold);
        Ciphertext::from_bytes(bytes)
    }

    /// Decodes one stored record.
    pub fn decode_encrypted_age(&self, encoded: &str) -> (r: Result<Ciphertext, AppError>)
        ensures
            r matches Ok(c) ==> decodes_to(encoded@, c@) && c.wf(),
            r is Ok <==> decodable(encoded@),
            r matches Ok(c) ==> forall|b: Seq<u8>| decodes_to(encoded@, b) ==> b == c@,
            r matches Err(e) ==> e == AppError::MalformedCiphertext,
    {
        decode_ciphertext(encoded)
    }

    /// Encodes an aggregate for the response.
    pub fn encode_encrypted_result(&self, ciphertext: &Ciphertext) -> (r: String)
        ensures
            r@ == b64_of(ciphertext@),
    {
        encode_ciphertext(ciphertext)
    }

    /// Reduces a batch by encrypted addition, left to right.  An empty batch
    /// is `EmptyAggregate`: an encrypted zero would be indistinguishable
    /// from it for the evaluator, so the two cases are kept apart.  The
    /// result hides the sum of the hidden summands while that sum stays
    /// below `CT_MOD`.
    pub fn homomorphic_sum(&self, ciphertexts: &Vec<Ciphertext>) -> (r: Result<
        Ciphertext,
        AppError,
    >)
        ensures
            r matches Ok(out) ==> out.wf() && forall|sk: Seq<u8>|
                (#[trigger] paired_keys(sk, self@)) && all_valid(sk, ct_views(ciphertexts@))
                    && sum_plain(sk, ct_views(ciphertexts@)) < CT_MOD as nat ==> valid_ct(sk, out@)
                    && decrypt_of(sk, out@) == sum_plain(sk, ct_views(ciphertexts@)),
            ciphertexts@.len() == 0 <==> r == Err::<Ciphertext, AppError>(
                AppError::EmptyAggregate,
            ),
            ek_wire_ok(self@) && ciphertexts@.len() > 0 && (forall|k: int|
                0 <= k < ciphertexts@.len() ==> (#[trigger] ciphertexts@[k]).wf()) ==> r is Ok,
            r matches Err(e) ==> e == AppError::EmptyAggregate || e == AppError::KeyError
                || e == AppError::MalformedCiphertext,
    {
        let ghost vs = ct_views(ciphertexts@);
        if ciphertexts.len() == 0 {
            return Err(AppError::EmptyAggregate);
        }
        if !check_ek_bytes(self.evaluation_key.as_bytes()) {
            return Err(AppError::KeyError);
        }
        if !check_ct_bytes(ciphertexts[0].as_bytes()) {
            return Err(AppError::MalformedCiphertext);
        }
        let mut acc: Vec<u8> = clone_bytes(ciphertexts[0].as_bytes());
        proof {
            assert(vs.take(1).drop_last() =~= Seq::<Seq<u8>>::empty());
            assert(vs.take(1).last() == vs[0]);
            assert(acc@ == vs[0]);
            assert forall|sk: Seq<u8>|
                (#[trigger] paired_keys(sk, self@)) && all_valid(sk, vs) && sum_plain(sk, vs)
                    < CT_MOD as nat implies valid_ct(sk, acc@) && decrypt_of(sk, acc@)
                == sum_plain(sk, vs.take(1)) by {
                assert(valid_ct(sk, vs[0]));
                assert(sum_plain(sk, Seq::<Seq<u8>>::empty()) == 0);
                assert(sum_plain(sk, vs.take(1)) == decrypt_of(sk, vs[0]));
            }
        }
        let mut i: usize = 1;
        while i < ciphertexts.len()
            invariant
                1 <= i <= vs.len(),
                vs == ct_views(ciphertexts@),
                vs.len() == ciphertexts@.len(),
                ek_wire_ok(self@),
                ct_wire_ok(acc@),
                forall|sk: Seq<u8>|
                    (#[trigger] paired_keys(sk, self@)) && all_valid(sk, vs) && sum_plain(sk, vs)
                        < CT_MOD as nat ==> valid_ct(sk, acc@) && decrypt_of(sk, acc@)
                        == sum_plain(sk, vs.take(i as int)),
            decreases vs.len() - i,
        {
            let ghost old_acc = acc@;
            if !check_ct_bytes(ciphertexts[i].as_bytes()) {
                return Err(AppError::MalformedCiphertext);
            }
            let next = add_raw(self.evaluation_key.as_bytes(), &acc, ciphertexts[i].as_bytes());
            acc = next;
            proof {
                assert forall|sk: Seq<u8>|
                    (#[trigger] paired_keys(sk, self@)) && all_valid(sk, vs) && sum_plain(sk, vs)
                        < CT_MOD as nat implies valid_ct(sk, acc@) && decrypt_of(sk, acc@)
                    == sum_plain(sk, vs.take(i as int + 1)) by {
                    assert(vs.take(i as int + 1).drop_last() =~= vs.take(i as int));
                    assert(vs.take(i as int + 1).last() == vs[i as int]);
                    lemma_sum_take_le(sk, vs, i as int + 1);
                    assert(valid_ct(sk, vs[i as int]));
                    assert(valid_ct(sk, old_acc) && decrypt_of(sk, old_acc) == sum_plain(
                        sk,
                        vs.take(i as int),
                    ));
                    assert(decrypt_of(sk, old_acc) + decrypt_of(sk, vs[i as int]) < CT_MOD as nat);
                }
            }
            i = i + 1;
        }
        proof {
            assert(vs.take(vs.len() as int) =~= vs);
        }
        Ciphertext::from_bytes(acc)
    }
}

/// Decodes every stored record, isolating failures: the well-formed
/// ciphertexts come back in stored order beside the count of records that
/// were skipped as malformed.
pub fn decode_all(stored: &Vec<String>) -> (r: (Vec<Ciphertext>, usize))
    ensures
        ct_views(r.0@) == good_bytes(str_views(stored@)),
        forall|k: int| 0 <= k < r.0@.len() ==> (#[trigger] r.0@[k]).wf(),
        r.1 + good_bytes(str_views(stored@)).len() == stored@.len(),
{
    let ghost sv = str_views(stored@);
    let mut cts: Vec<Ciphertext> = Vec::new();
    let mut skipped: usize = 0;
    let mut i: usize = 0;
    proof {
        assert(ct_views(cts@) =~= good_bytes(sv.take(0)));
    }
    while i < stored.len()
        invariant
            i <= stored@.len(),
            sv == str_views(stored@),
            sv.len() == stored@.len(),
            ct_views(cts@) == good_bytes(sv.take(i as int)),
            forall|k: int| 0 <= k < cts@.len() ==> (#[trigger] cts@[k]).wf(),
            cts@.len() + skipped == i,
        decreases stored@.len() - i,
    {
        match decode_ciphertext(stored[i].as_str()) {
            Ok(c) => {
                proof {
                    assert(decodes_to(sv[i as int], c@));
                    assert(decodable(sv[i as int]));
                    assert(decodes_to(sv[i as int], dec_of(sv[i as int])));
                    assert(dec_of(sv[i as int]) == c@);
                }
                cts.push(c);
            },
            Err(_) => {
                proof {
                    assert(!decodable(sv[i as int]));
                }
                skipped = skipped + 1;
            },
        }
        proof {
            assert(sv.take(i as int + 1).drop_last() =~= sv.take(i as int));
            assert(sv.take(i as int + 1).last() == sv[i as int]);
            assert(ct_views(cts@) =~= good_bytes(sv.take(i as int + 1)));
        }
        i = i + 1;
    }
    proof {
        assert(sv.take(stored@.len() as int) =~= sv);
        lemma_good_le_len(sv);
    }
    (cts, skipped)
}

/// One threshold's aggregate: the encrypted count of batch entries whose
/// hidden value lies below `t`.  The evaluator's control flow is oblivious
/// to every comparison outcome.
pub fn threshold_aggregate(ctx: &CryptoContext, cts: &Vec<Ciphertext>, t: u32) -> (r: Result<
    Ciphertext,
    AppError,
>)
    ensures
        r matches Ok(out) ==> out.wf() && forall|sk: Seq<u8>|
            (#[trigger] paired_keys(sk, ctx@)) && all_valid(sk, ct_views(cts@)) && count_under(
                sk,
                ct_views(cts@),
                t,
            ) < CT_MOD as nat ==> valid_ct(sk, out@) && decrypt_of(sk, out@) == count_under(
                sk,
                ct_views(cts@),
                t,
            ),
        cts@.len() == 0 <==> r == Err::<Ciphertext, AppError>(AppError::EmptyAggregate),
        ek_wire_ok(ctx@) && cts@.len() > 0 && (forall|k: int|
            0 <= k < cts@.len() ==> (#[trigger] cts@[k]).wf()) ==> r is Ok,
        r matches Err(e) ==> e == AppError::EmptyAggregate || e == AppError::KeyError
            || e == AppError::MalformedCiphertext,
{
    let ghost ins = ct_views(cts@);
    let mut outs: Vec<Ciphertext> = Vec::new();
    let mut i: usize = 0;
    while i < cts.len()
        invariant
            i <= cts@.len(),
            ins == ct_views(cts@),
            ins.len() == cts@.len(),
            outs@.len() == i,
            forall|k: int| 0 <= k < outs@.len() ==> (#[trigger] outs@[k]).wf(),
            forall|sk: Seq<u8>|
                (#[trigger] paired_keys(sk, ctx@)) && all_valid(sk, ins) ==> indicators_of(
                    sk,
                    ct_views(outs@),
                    ins,
                    t,
                ),
        decreases cts@.len() - i,
    {
        let ghost old_outs = ct_views(outs@);
        let out = match ctx.homomorphic_less_than(&cts[i], t) {
            Ok(o) => o,
            Err(e) => {
                proof {
                    if ek_wire_ok(ctx@) && (forall|k: int|
                        0 <= k < cts@.len() ==> (#[trigger] cts@[k]).wf()) {
                        assert(cts@[i as int].wf());
                        assert(false);
                    }
                }
                return Err(e);
            },
        };
        outs.push(out);
        proof {
            assert(ct_views(outs@) =~= old_outs.push(out@));
            assert forall|sk: Seq<u8>|
                (#[trigger] paired_keys(sk, ctx@)) && all_valid(sk, ins) implies indicators_of(
                sk,
                ct_views(outs@),
                ins,
                t,
            ) by {
                assert(indicators_of(sk, old_outs, ins, t));
                assert(valid_ct(sk, ins[i as int]));
                assert(valid_ct(sk, out@) && decrypt_of(sk, out@) == indicator(
                    sk,
                    ins[i as int],
                    t,
                ));
                assert forall|k: int| 0 <= k < ct_views(outs@).len() implies valid_ct(
                    sk,
                    #[trigger] ct_views(outs@)[k],
                ) && decrypt_of(sk, ct_views(outs@)[k]) == indicator(sk, ins[k], t) by {
                    if k < old_outs.len() {
                        assert(ct_views(outs@)[k] == old_outs[k]);
                    } else {
                        assert(ct_views(outs@)[k] == out@);
                    }
                }
            }
        }
        i = i + 1;
    }
    let sum = match ctx.homomorphic_sum(&outs) {
        Ok(s) => s,
        Err(e) => {
            proof {
                if cts@.len() > 0 {
                    assert(outs@.len() > 0);
                    if ek_wire_ok(ctx@) {
                        assert(false);
                    }
                }
            }
            return Err(e);
        },
    };
    proof {
        assert forall|sk: Seq<u8>|
            (#[trigger] paired_keys(sk, ctx@)) && all_valid(sk, ins) && count_under(sk, ins, t)
                < CT_MOD as nat implies valid_ct(sk, sum@) && decrypt_of(sk, sum@) == count_under(
            sk,
            ins,
            t,
        ) by {
            assert(indicators_of(sk, ct_views(outs@), ins, t));
            assert(all_valid(sk, ct_views(outs@)));
            lemma_sum_of_indicators(sk, ins, ct_views(outs@), t);
            assert(sum_plain(sk, ct_views(outs@)) < CT_MOD as nat);
        }
    }
    Ok(sum)
}

/// The full stats computation: decode the whole store (skipping and
/// counting malformed records), then produce one encoded encrypted count
/// per requested threshold.  With no valid record at all the request is
/// `EmptyAggregate`, never a value that would decrypt to zero.
pub fn aggregate(ctx: &CryptoContext, stored: &Vec<String>, thresholds: &Vec<u32>) -> (r: Result<
    AggregateResult,
    AppError,
>)
    ensures
        r matches Ok(a) ==> a.total_users == stored@.len() as u64 && a.skipped_records as nat
            + good_bytes(str_views(stored@)).len() == stored@.len() && good_bytes(
            str_views(stored@),
        ).len() > 0 && a.per_threshold@.len() == thresholds@.len() && per_threshold_ok(
            a.per_threshold@,
            thresholds@,
            ctx@,
            str_views(stored@),
        ),
        good_bytes(str_views(stored@)).len() == 0 ==> r == Err::<AggregateResult, AppError>(
            AppError::EmptyAggregate,
        ),
        ek_wire_ok(ctx@) && good_bytes(str_views(stored@)).len() > 0 ==> r is Ok,
        r matches Err(e) ==> e == AppError::EmptyAggregate || e == AppError::KeyError
            || e == AppError::MalformedCiphertext,
{
    let ghost sv = str_views(stored@);
    let ghost good = good_bytes(sv);
    let (cts, skipped) = decode_all(stored);
    if cts.len() == 0 {
        return Err(AppError::EmptyAggregate);
    }
    let total = stored.len();
    let mut per: Vec<(u32, String)> = Vec::new();
    let mut j: usize = 0;
    while j < thresholds.len()
        invariant
            j <= thresholds@.len(),
            sv == str_views(stored@),
            good == good_bytes(sv),
            ct_views(cts@) == good,
            cts@.len() == good.len(),
            cts@.len() > 0,
            forall|k: int| 0 <= k < cts@.len() ==> (#[trigger] cts@[k]).wf(),
            per@.len() == j,
            per_threshold_ok(per@, thresholds@, ctx@, sv),
        decreases thresholds@.len() - j,
    {
        let t = thresholds[j];
        let sum = match threshold_aggregate(ctx, &cts, t) {
            Ok(s) => s,
            Err(e) => {
                proof {
                    if ek_wire_ok(ctx@) {
                        assert(false);
                    }
                }
                return Err(e);
            },
        };
        let encoded = encode_ciphertext(&sum);
        let ghost encview = encoded@;
        let ghost prev = per@;
        proof {
            assert(decodes_to(encview, sum@));
            assert forall|sk: Seq<u8>|
                (#[trigger] agg_hyp(sk, ctx@, sv)) && count_under(sk, good, thresholds@[j as int])
                    < CT_MOD as nat implies decrypt_of(sk, sum@) == count_under(
                sk,
                good,
                thresholds@[j as int],
            ) by {
                assert(paired_keys(sk, ctx@) && all_valid(sk, good));
            }
        }
        per.push((t, encoded));
        proof {
            assert(per@[j as int].1@ == encview);
            assert(decodes_to(per@[j as int].1@, sum@));
            assert forall|jj: int| 0 <= jj < per@.len() implies (#[trigger] per@[jj]).0
                == thresholds@[jj] && exists|b: Seq<u8>|
                (#[trigger] decodes_to(per@[jj].1@, b)) && forall|sk: Seq<u8>|
                    (#[trigger] agg_hyp(sk, ctx@, sv)) && count_under(
                        sk,
                        good_bytes(sv),
                        thresholds@[jj],
                    ) < CT_MOD as nat ==> decrypt_of(sk, b) == count_under(
                        sk,
                        good_bytes(sv),
                        thresholds@[jj],
                    ) by {
                if jj < j as int {
                    assert(per@[jj] == prev[jj]);
                    let b0 = choose|b: Seq<u8>|
                        (#[trigger] decodes_to(prev[jj].1@, b)) && forall|sk: Seq<u8>|
                            (#[trigger] agg_hyp(sk, ctx@, sv)) && count_under(
                                sk,
                                good_bytes(sv),
                                thresholds@[jj],
                            ) < CT_MOD as nat ==> decrypt_of(sk, b) == count_under(
                                sk,
                                good_bytes(sv),
                                thresholds@[jj],
                            );
                    assert(decodes_to(per@[jj].1@, b0));
                } else {
                    assert(per@[jj].1@ == encview);
                    assert(decodes_to(per@[jj].1@, sum@) && forall|sk: Seq<u8>|
                        (#[trigger] agg_hyp(sk, ctx@, sv)) && count_under(
                            sk,
                            good_bytes(sv),
                            thresholds@[jj],
                        ) < CT_MOD as nat ==> decrypt_of(sk, sum@) == count_under(
                            sk,
                            good_bytes(sv),
                            thresholds@[jj],
                        ));
                }
            }
            assert(per_threshold_ok(per@, thresholds@, ctx@, sv));
        }
        j = j + 1;
    }
    Ok(
        AggregateResult {
            total_users: total as u64,
            skipped_records: skipped as u64,
            per_threshold: per,
        },
    )
}

} // verus!
