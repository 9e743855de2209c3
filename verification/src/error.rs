use vstd::prelude::*;

verus! {

/// The error taxonomy of the library.
///
/// Key-load failures are fatal at startup; malformed ciphertexts are rejected
/// per record; an empty aggregate is surfaced distinctly from an encrypted
/// zero; storage failures come from the storage collaborator; range failures
/// are rejected on the client side before encryption is attempted.
#[derive(Clone, Copy, Debug, PartialEq, Eq, Structural)]
pub enum AppError {
    /// The key material is missing, truncated or corrupt.
    KeyError,
    /// An encoded ciphertext does not decode to the scheme's expected shape.
    MalformedCiphertext,
    /// An aggregate was requested over no valid records.
    EmptyAggregate,
    /// The storage collaborator failed; mapped by the caller to its own reply.
    StorageError,
    /// A plaintext age lies outside the supported encoding width.
    EncryptionRangeError,
    /// An unexpected failure inside the homomorphic layer.
    Internal,
}

impl AppError {
    /// A short stable label for logs and transport bodies.
    pub fn label(&self) -> (r: &'static str)
        ensures
            self is KeyError ==> r@ == "key error"@,
            self is MalformedCiphertext ==> r@ == "malformed ciphertext"@,
            self is EmptyAggregate ==> r@ == "empty aggregate"@,
            self is StorageError ==> r@ == "storage error"@,
            self is EncryptionRangeError ==> r@ == "age out of range"@,
            self is Internal ==> r@ == "internal error"@,
    {
        proof {
            reveal_strlit("key error");
            reveal_strlit("malformed ciphertext");
            reveal_strlit("empty aggregate");
            reveal_strlit("storage error");
            reveal_strlit("age out of range");
            reveal_strlit("internal error");
        }
        match self {
            AppError::KeyError => "key error",
            AppError::MalformedCiphertext => "malformed ciphertext",
            AppError::EmptyAggregate => "empty aggregate",
            AppError::StorageError => "storage error",
            AppError::EncryptionRangeError => "age out of range",
            AppError::Internal => "internal error",
        }
    }
}

} // verus!
