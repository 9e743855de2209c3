//! The client role: the only holder of the secret half, able to encrypt an
//! age for submission and to decrypt returned aggregates.

use vstd::prelude::*;

use crate::codec::{decodable, decode_ciphertext, decodes_to, Ciphertext};
use crate::error::AppError;
use crate::fhe::{check_ct_bytes, check_sk_bytes, decrypt_of, decrypt_raw, encrypt_raw,
    sk_wire_ok, valid_ct};
use crate::keys::SecretKey;

verus! {

/// The oldest age the 8-bit submission domain admits.
pub const MAX_AGE: u32 = 255;

/// Encryption and decryption under the secret half of the pair.
pub struct ClientCryptoContext {
    secret_key: SecretKey,
}

impl View for ClientCryptoContext {
    type V = Seq<u8>;

    closed spec fn view(&self) -> Seq<u8> {
        self.secret_key@
    }
}

impl ClientCryptoContext {
    /// The held secret half has the expected wire shape.
    pub open spec fn wf(self) -> bool {
        sk_wire_ok(self@)
    }

    /// Builds the client context around the secret half of a pair.
    pub fn from_secret_key(secret_key: SecretKey) -> (r: ClientCryptoContext)
        ensures
            r@ == secret_key@,
    {
        ClientCryptoContext { secret_key }
    }

    /// Encrypts an age in the supported domain; together with `decrypt` this
    /// is the round trip: the result decrypts to `age` under this same key.
    /// Ages beyond the domain are rejected before encryption is attempted,
    /// and the key is checked against the scheme's parameter set first.
    pub fn encrypt(&self, age: u32) -> (r: Result<Ciphertext, AppError>)
        ensures
            age > MAX_AGE ==> r == Err::<Ciphertext, AppError>(AppError::EncryptionRangeError),
            r matches Ok(c) ==> c.wf() && valid_ct(self@, c@) && decrypt_of(self@, c@) == age
                as nat,
            r is Ok <==> self.wf() && age <= MAX_AGE,
            age <= MAX_AGE && !self.wf() ==> r == Err::<Ciphertext, AppError>(AppError::KeyError),
    {
        if age > MAX_AGE {
            return Err(AppError::EncryptionRangeError);
        }
        if !check_sk_bytes(self.secret_key.as_bytes()) {
            return Err(AppError::KeyError);
        }
        let bytes = encrypt_raw(self.secret_key.as_bytes(), age as u8);
        Ciphertext::from_bytes(bytes)
    }

    /// Decrypts a ciphertext of this pair back to its plaintext, after
    /// checking that both byte strings carry the scheme's parameter set.
    pub fn decrypt(&self, ciphertext: &Ciphertext) -> (r: Result<u64, AppError>)
        ensures
            r matches Ok(v) ==> v as nat == decrypt_of(self@, ciphertext@),
            r is Ok <==> self.wf() && ciphertext.wf(),
            !self.wf() ==> r == Err::<u64, AppError>(AppError::KeyError),
            self.wf() && !ciphertext.wf() ==> r == Err::<u64, AppError>(
                AppError::MalformedCiphertext,
            ),
    {
        if !check_sk_bytes(self.secret_key.as_bytes()) {
            return Err(AppError::KeyError);
        }
        if !check_ct_bytes(ciphertext.as_bytes()) {
            return Err(AppError::MalformedCiphertext);
        }
        Ok(decrypt_raw(self.secret_key.as_bytes(), ciphertext.as_bytes()))
    }

    /// Decodes one encoded aggregate from a stats response and decrypts it:
    /// the returned count is the plaintext of the bytes the text encodes.
    pub fn decrypt_count(&self, encoded: &str) -> (r: Result<u64, AppError>)
        ensures
            r matches Ok(v) ==> exists|b: Seq<u8>|
                #[trigger] decodes_to(encoded@, b) && v as nat == decrypt_of(self@, b),
            r matches Ok(v) ==> forall|b: Seq<u8>| decodes_to(encoded@, b) ==> v as nat
                == decrypt_of(self@, b),
            self.wf() && decodable(encoded@) ==> r is Ok,
            r matches Err(e) ==> e == AppError::KeyError || e == AppError::MalformedCiphertext,
    {
        let ct = match decode_ciphertext(encoded) {
            Ok(c) => c,
            Err(e) => {
                return Err(e);
            },
        };
        let v = match self.decrypt(&ct) {
            Ok(v) => v,
            Err(e) => {
                return Err(e);
            },
        };
        proof {
            assert(decodes_to(encoded@, ct@));
            assert forall|b: Seq<u8>| decodes_to(encoded@, b) implies v as nat
                == decrypt_of(self@, b) by {
                assert(b == ct@);
            }
        }
        Ok(v)
    }
}

} // verus!
