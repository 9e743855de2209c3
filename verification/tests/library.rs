use fhe_age_stats::client::ClientCryptoContext;
use fhe_age_stats::codec::{decode_bytes, encode_bytes, decode_ciphertext, Ciphertext};
use fhe_age_stats::engine::{aggregate, decode_all, threshold_aggregate, CryptoContext};
use fhe_age_stats::error::AppError;
use fhe_age_stats::keys::{EvaluationKey, KeyPair, SecretKey};
use fhe_age_stats::protocol::{compute_stats, make_submission, validate_submission, AgeSubmission};

fn junk_evaluation_context() -> CryptoContext {
    CryptoContext::from_evaluation_key(EvaluationKey::from_bytes(vec![9, 9, 9]))
}

fn junk_client_context() -> ClientCryptoContext {
    ClientCryptoContext::from_secret_key(SecretKey::from_bytes(vec![1, 2, 3]))
}

#[test]
fn blob_codec_round_trips_bytes() {
    let bytes = vec![0u8, 1, 2, 250, 251, 252];
    let encoded = encode_bytes(&bytes);
    let engine = &base64::engine::general_purpose::STANDARD;
    assert_eq!(encoded, base64::Engine::encode(engine, &bytes));
    let back = decode_bytes(&encoded).expect("canonical text must decode");
    assert_eq!(back, bytes);
}

#[test]
fn blob_decoder_rejects_non_base64_text() {
    assert_eq!(
        decode_bytes("this is not base64!").unwrap_err(),
        AppError::MalformedCiphertext
    );
}

#[test]
fn blob_decoder_rejects_non_canonical_padding() {
    // "AQID" is canonical for [1, 2, 3]; a stray pad byte must be refused.
    assert!(decode_bytes("AQID=").is_err());
    assert_eq!(decode_bytes("AQID").unwrap(), vec![1u8, 2, 3]);
}

#[test]
fn ciphertext_rejects_garbage_bytes() {
    assert_eq!(
        Ciphertext::from_bytes(vec![1, 2, 3]).unwrap_err(),
        AppError::MalformedCiphertext
    );
}

#[test]
fn ciphertext_rejects_wrong_width() {
    // Eight zero bytes deserialize as a radix ciphertext of zero blocks:
    // well-formed bincode, but not the scheme's eight-block shape.
    assert_eq!(
        Ciphertext::from_bytes(vec![0u8; 8]).unwrap_err(),
        AppError::MalformedCiphertext
    );
}

#[test]
fn record_decoder_rejects_valid_base64_of_bad_shape() {
    let engine = &base64::engine::general_purpose::STANDARD;
    let text = base64::Engine::encode(engine, [0u8; 8]);
    assert_eq!(
        decode_ciphertext(&text).unwrap_err(),
        AppError::MalformedCiphertext
    );
}

#[test]
fn key_file_rejects_truncated_record() {
    assert_eq!(
        KeyPair::from_file_bytes(&vec![1, 2, 3]).unwrap_err(),
        AppError::KeyError
    );
    assert_eq!(KeyPair::from_file_bytes(&vec![]).unwrap_err(), AppError::KeyError);
}

#[test]
fn key_file_rejects_well_framed_garbage_keys() {
    // A record framed as [len][bytes][len][bytes] whose halves are not keys.
    let mut file = Vec::new();
    file.extend_from_slice(&3u64.to_le_bytes());
    file.extend_from_slice(&[7, 7, 7]);
    file.extend_from_slice(&2u64.to_le_bytes());
    file.extend_from_slice(&[8, 8]);
    assert_eq!(KeyPair::from_file_bytes(&file).unwrap_err(), AppError::KeyError);
}

#[test]
fn key_file_rejects_trailing_bytes() {
    let mut file = Vec::new();
    file.extend_from_slice(&0u64.to_le_bytes());
    file.extend_from_slice(&0u64.to_le_bytes());
    file.push(42);
    assert_eq!(KeyPair::from_file_bytes(&file).unwrap_err(), AppError::KeyError);
}

#[test]
fn submission_with_undecodable_payload_is_rejected() {
    let submission = AgeSubmission {
        encrypted_age: "###".to_string(),
        user_id: "user-1".to_string(),
    };
    assert_eq!(
        validate_submission(&submission).unwrap_err(),
        AppError::MalformedCiphertext
    );
}

#[test]
fn age_above_domain_is_rejected_before_encryption() {
    let ctx = junk_client_context();
    assert_eq!(
        make_submission(&ctx, 300, "user-2".to_string()).unwrap_err(),
        AppError::EncryptionRangeError
    );
    assert_eq!(
        make_submission(&ctx, 256, "user-3".to_string()).unwrap_err(),
        AppError::EncryptionRangeError
    );
}

#[test]
fn encryption_under_corrupt_key_is_a_key_error() {
    let ctx = junk_client_context();
    assert_eq!(
        make_submission(&ctx, 30, "user-4".to_string()).unwrap_err(),
        AppError::KeyError
    );
}

#[test]
fn decrypting_undecodable_count_is_rejected() {
    let ctx = junk_client_context();
    assert_eq!(
        ctx.decrypt_count("!!").unwrap_err(),
        AppError::MalformedCiphertext
    );
}

#[test]
fn summing_no_ciphertexts_is_an_empty_aggregate() {
    let ctx = junk_evaluation_context();
    assert_eq!(
        ctx.homomorphic_sum(&Vec::new()).unwrap_err(),
        AppError::EmptyAggregate
    );
    assert_eq!(
        threshold_aggregate(&ctx, &Vec::new(), 25).unwrap_err(),
        AppError::EmptyAggregate
    );
}

#[test]
fn aggregating_an_empty_store_is_an_empty_aggregate() {
    let ctx = junk_evaluation_context();
    let thresholds = vec![25u32, 35u32];
    assert_eq!(
        aggregate(&ctx, &Vec::new(), &thresholds).unwrap_err(),
        AppError::EmptyAggregate
    );
}

#[test]
fn corrupted_records_are_skipped_not_fatal() {
    let engine = &base64::engine::general_purpose::STANDARD;
    let stored = vec![
        "%%%".to_string(),
        base64::Engine::encode(engine, [0u8; 8]),
        "QUJD".to_string(),
    ];
    let (decoded, skipped) = decode_all(&stored);
    assert_eq!(decoded.len(), 0);
    assert_eq!(skipped, 3);
}

#[test]
fn stats_over_corrupt_only_store_is_an_empty_aggregate() {
    let ctx = junk_evaluation_context();
    let stored = vec!["corrupt-one".to_string(), "corrupt-two".to_string()];
    assert_eq!(
        compute_stats(&ctx, &stored).unwrap_err(),
        AppError::EmptyAggregate
    );
}

#[test]
fn error_labels_are_stable() {
    assert_eq!(AppError::KeyError.label(), "key error");
    assert_eq!(AppError::MalformedCiphertext.label(), "malformed ciphertext");
    assert_eq!(AppError::EmptyAggregate.label(), "empty aggregate");
}
