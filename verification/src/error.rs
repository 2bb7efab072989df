use vstd::prelude::*;

verus! {

/// Why an encryption or decryption was refused.
#[derive(Clone, Copy, Debug, PartialEq, Eq, Structural)]
pub enum CipherError {
    /// The key is not exactly 32 bytes long.
    InvalidKeyLength,
    /// The initialization vector is not exactly 16 bytes long.
    InvalidIvLength,
    /// The ciphertext length is not a multiple of the block size.
    InvalidLength,
    /// The padding of the last decrypted block is malformed: the data is
    /// corrupt, or the key or the initialization vector is not the one used
    /// for encryption.
    InvalidPadding,
}

/// A failure reported to the caller as a status code and a message.
#[derive(Debug)]
pub struct ErrorResponse {
    pub status: i16,
    pub message: String,
}

} // verus!
