//! Password-based file encryption: AES-256 in CBC mode with PKCS#7 padding,
//! and Argon2id password hashing.
//!
//! The chaining mode, the padding rule and the buffer handling are proved
//! against mathematical models of themselves. The block cipher and the
//! password hasher are called from outside crates; what is taken on trust
//! about them is written on the items in [`block`] and [`password`] that make
//! those calls.

pub mod block;
pub mod cbc;
pub mod cipher;
pub mod derive;
pub mod error;
pub mod padding;
pub mod password;

pub use cipher::{decrypt, encrypt};
pub use error::{CipherError, ErrorResponse};
pub use password::{get_pw_hash, hash_password, validate_hash};
