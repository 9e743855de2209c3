//! The submission/stats protocol: the state-free request contract between
//! the client and the evaluating server.  Transport and storage stay with
//! outside collaborators; they hand this module plain strings and take
//! plain strings back.

use vstd::prelude::*;

use crate::client::{ClientCryptoContext, MAX_AGE};
use crate::codec::{decodable, decode_ciphertext, decodes_to, encode_ciphertext};
use crate::engine::{aggregate, agg_hyp, count_under, good_bytes, str_views, CryptoContext};
use crate::error::AppError;
use crate::fhe::{decrypt_of, ek_wire_ok, valid_ct, CT_MOD};

verus! {

/// The policy thresholds of the stats response; fixed, never user-supplied,
/// since thresholds leak what the ages are compared against.
pub const THRESHOLD_LOW: u32 = 25;

/// The higher of the two policy thresholds.
pub const THRESHOLD_HIGH: u32 = 35;

/// One submission: an encoded encrypted age under an opaque user id.
#[derive(Debug)]
pub struct AgeSubmission {
    /// The canonical text encoding of the encrypted age.
    pub encrypted_age: String,
    /// The opaque identifier the submission is stored under.
    pub user_id: String,
}

/// The stats response: a plaintext total beside one encoded encrypted count
/// per policy threshold.
#[derive(Debug)]
pub struct AgeStats {
    /// How many records the store held.
    pub total_users: i64,
    /// The encoded encrypted count of ages below the lower threshold.
    pub users_under_25_encrypted: String,
    /// The encoded encrypted count of ages below the higher threshold.
    pub users_under_35_encrypted: String,
}

/// One response field is the encoding of an encrypted count of the stored
/// ages below `t`, for a store of any size whose count below `t` does not
/// wrap the encoding.
pub open spec fn stats_field_ok(field: Seq<char>, ek: Seq<u8>, stored: Seq<Seq<char>>, t: u32) -> bool {
    exists|b: Seq<u8>|
        (#[trigger] decodes_to(field, b)) && forall|sk: Seq<u8>|
            (#[trigger] agg_hyp(sk, ek, stored)) && count_under(sk, good_bytes(stored), t)
                < CT_MOD as nat ==> decrypt_of(sk, b) == count_under(sk, good_bytes(stored), t)
}

/// Accepts a submission exactly when its payload decodes to the scheme's
/// well-formed ciphertext shape; the server can check nothing more, since
/// the age itself stays hidden.
pub fn validate_submission(submission: &AgeSubmission) -> (r: Result<(), AppError>)
    ensures
        r is Ok <==> decodable(submission.encrypted_age@),
        r matches Err(e) ==> e == AppError::MalformedCiphertext,
{
    match decode_ciphertext(submission.encrypted_age.as_str()) {
        Ok(_) => Ok(()),
        Err(e) => Err(e),
    }
}

/// The client side of a submission: encrypt the age in the supported
/// domain, encode it canonically, and bind it to the caller's user id.
pub fn make_submission(ctx: &ClientCryptoContext, age: u32, user_id: String) -> (r: Result<
    AgeSubmission,
    AppError,
>)
    ensures
        age > MAX_AGE ==> r == Err::<AgeSubmission, AppError>(AppError::EncryptionRangeError),
        r matches Ok(s) ==> s.user_id@ == user_id@ && decodable(s.encrypted_age@) && exists|
            b: Seq<u8>,
        |
            (#[trigger] decodes_to(s.encrypted_age@, b)) && valid_ct(ctx@, b) && decrypt_of(
                ctx@,
                b,
            ) == age as nat,
        r is Ok <==> ctx.wf() && age <= MAX_AGE,
        age <= MAX_AGE && !ctx.wf() ==> r == Err::<AgeSubmission, AppError>(AppError::KeyError),
{
    let ct = match ctx.encrypt(age) {
        Ok(c) => c,
        Err(e) => {
            return Err(e);
        },
    };
    let encoded = encode_ciphertext(&ct);
    proof {
        assert(decodes_to(encoded@, ct@));
    }
    Ok(AgeSubmission { encrypted_age: encoded, user_id })
}

/// The server side of a stats request: aggregate the whole store at request
/// time against the two policy thresholds.  Each response field decodes to
/// an encrypted count of the valid stored ages below its threshold; corrupt
/// records are skipped, and a store with no valid record is
/// `EmptyAggregate`, never a value that would decrypt to zero.
pub fn compute_stats(ctx: &CryptoContext, stored: &Vec<String>) -> (r: Result<AgeStats, AppError>)
    requires
        stored@.len() <= i64::MAX,
    ensures
        r matches Ok(st) ==> st.total_users == stored@.len() as i64 && stats_field_ok(
            st.users_under_25_encrypted@,
            ctx@,
            str_views(stored@),
            THRESHOLD_LOW,
        ) && stats_field_ok(
            st.users_under_35_encrypted@,
            ctx@,
            str_views(stored@),
            THRESHOLD_HIGH,
        ),
        good_bytes(str_views(stored@)).len() == 0 ==> r == Err::<AgeStats, AppError>(
            AppError::EmptyAggregate,
        ),
        ek_wire_ok(ctx@) && good_bytes(str_views(stored@)).len() > 0 ==> r is Ok,
        r matches Err(e) ==> e == AppError::EmptyAggregate || e == AppError::KeyError
            || e == AppError::MalformedCiphertext,
{
    let mut thresholds: Vec<u32> = Vec::new();
    thresholds.push(THRESHOLD_LOW);
    thresholds.push(THRESHOLD_HIGH);
    let result = match aggregate(ctx, stored, &thresholds) {
        Ok(a) => a,
        Err(e) => {
            return Err(e);
        },
    };
    let total = result.total_users;
    let mut per = result.per_threshold;
    let ghost perv = per@;
    let ghost sv = str_views(stored@);
    let high = match per.pop() {
        Some(p) => p,
        None => {
            proof {
                assert(false);
            }
            return Err(AppError::EmptyAggregate);
        },
    };
    let low = match per.pop() {
        Some(p) => p,
        None => {
            proof {
                assert(false);
            }
            return Err(AppError::EmptyAggregate);
        },
    };
    let st = AgeStats {
        total_users: total as i64,
        users_under_25_encrypted: low.1,
        users_under_35_encrypted: high.1,
    };
    proof {
        assert(thresholds@[0] == THRESHOLD_LOW && thresholds@[1] == THRESHOLD_HIGH);
        assert(high == perv[1] && low == perv[0]);
        assert(st.users_under_25_encrypted@ == perv[0].1@);
        assert(st.users_under_35_encrypted@ == perv[1].1@);
        let b0 = choose|b: Seq<u8>|
            (#[trigger] decodes_to(perv[0].1@, b)) && forall|sk: Seq<u8>|
                (#[trigger] agg_hyp(sk, ctx@, sv)) && count_under(
                    sk,
                    good_bytes(sv),
                    thresholds@[0],
                ) < CT_MOD as nat ==> decrypt_of(sk, b) == count_under(
                    sk,
                    good_bytes(sv),
                    thresholds@[0],
                );
        assert(decodes_to(st.users_under_25_encrypted@, b0));
        assert(forall|sk: Seq<u8>|
            (#[trigger] agg_hyp(sk, ctx@, sv)) && count_under(sk, good_bytes(sv), THRESHOLD_LOW)
                < CT_MOD as nat ==> decrypt_of(sk, b0) == count_under(
                sk,
                good_bytes(sv),
                THRESHOLD_LOW,
            ));
        let b1 = choose|b: Seq<u8>|
            (#[trigger] decodes_to(perv[1].1@, b)) && forall|sk: Seq<u8>|
                (#[trigger] agg_hyp(sk, ctx@, sv)) && count_under(
                    sk,
                    good_bytes(sv),
                    thresholds@[1],
                ) < CT_MOD as nat ==> decrypt_of(sk, b) == count_under(
                    sk,
                    good_bytes(sv),
                    thresholds@[1],
                );
        assert(decodes_to(st.users_under_35_encrypted@, b1));
        assert(forall|sk: Seq<u8>|
            (#[trigger] agg_hyp(sk, ctx@, sv)) && count_under(sk, good_bytes(sv), THRESHOLD_HIGH)
                < CT_MOD as nat ==> decrypt_of(sk, b1) == count_under(
                sk,
                good_bytes(sv),
                THRESHOLD_HIGH,
            ));
    }
    Ok(st)
}

} // verus!
