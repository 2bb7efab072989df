//! The AES-256 block cipher, taken from the `crypto` crate, and the byte-wise
//! exclusive-or that the chaining mode puts around it.

use crypto::aessafe::{AesSafe256Decryptor, AesSafe256Encryptor};
use crypto::symmetriccipher::{BlockDecryptor, BlockEncryptor};
use vstd::prelude::*;

verus! {

/// Bytes in one cipher block.
pub const BLOCK_SIZE: usize = 16;

/// Bytes in a cipher key.
pub const KEY_SIZE: usize = 32;

/// Whether `len` bytes are a whole number of blocks.
pub open spec fn whole_blocks(len: nat) -> bool {
    len % (BLOCK_SIZE as nat) == 0
}

/// The AES-256 encryption of one 16-byte `block` under a 32-byte `key`.
pub uninterp spec fn aes256_encrypt_block(key: Seq<u8>, block: Seq<u8>) -> Seq<u8>;

/// The AES-256 decryption of one 16-byte `block` under a 32-byte `key`.
pub uninterp spec fn aes256_decrypt_block(key: Seq<u8>, block: Seq<u8>) -> Seq<u8>;

/// Encrypts one block with `AesSafe256Encryptor::encrypt_block` of the `crypto`
/// crate.
///
/// Trusted: the result is the AES-256 encryption of `block` under `key`, it is
/// 16 bytes long, and AES-256 decryption under the same key takes it back to
/// `block` (a block cipher is a permutation of the blocks for each key).
#[verifier::external_body]
pub(crate) fn encrypt_block(key: &[u8], block: &[u8]) -> (out: Vec<u8>)
    requires
        key@.len() == KEY_SIZE,
        block@.len() == BLOCK_SIZE,
    ensures
        out@ == aes256_encrypt_block(key@, block@),
        out@.len() == BLOCK_SIZE,
        aes256_decrypt_block(key@, out@) == block@,
{
    let mut out = [0u8; 16];
    AesSafe256Encryptor::new(key).encrypt_block(block, &mut out);
    out.to_vec()
}

/// Decrypts one block with `AesSafe256Decryptor::decrypt_block` of the `crypto`
/// crate.
///
/// Trusted: the result is the AES-256 decryption of `block` under `key`, it is
/// 16 bytes long, and AES-256 encryption under the same key takes it back to
/// `block`.
#[verifier::external_body]
pub(crate) fn decrypt_block(key: &[u8], block: &[u8]) -> (out: Vec<u8>)
    requires
        key@.len() == KEY_SIZE,
        block@.len() == BLOCK_SIZE,
    ensures
        out@ == aes256_decrypt_block(key@, block@),
        out@.len() == BLOCK_SIZE,
        aes256_encrypt_block(key@, out@) == block@,
{
    let mut out = [0u8; 16];
    AesSafe256Decryptor::new(key).decrypt_block(block, &mut out);
    out.to_vec()
}

/// The byte-wise exclusive-or of `a` with `b`, as long as `a`.
pub open spec fn xor_bytes(a: Seq<u8>, b: Seq<u8>) -> Seq<u8> {
    Seq::new(a.len(), |i: int| a[i] ^ b[i])
}

/// Exclusive-or with the same byte twice gives the first byte back.
pub proof fn lemma_xor_cancels(a: Seq<u8>, b: Seq<u8>)
    requires
        a.len() == b.len(),
    ensures
        xor_bytes(xor_bytes(a, b), b) == a,
{
    assert forall|i: int| 0 <= i < a.len() implies #[trigger] xor_bytes(xor_bytes(a, b), b)[i]
        == a[i] by {
        let x = a[i];
        let y = b[i];
        assert((x ^ y) ^ y == x) by (bit_vector);
    }
    assert(xor_bytes(xor_bytes(a, b), b) =~= a);
}

/// Computes the byte-wise exclusive-or of two blocks.
pub fn xor_block(a: &[u8], b: &[u8]) -> (out: Vec<u8>)
    requires
        a@.len() == b@.len(),
    ensures
        out@ == xor_bytes(a@, b@),
{
    let mut out: Vec<u8> = Vec::with_capacity(a.len());
    let mut i: usize = 0;
    while i < a.len()
        invariant
            i <= a@.len(),
            a@.len() == b@.len(),
            out@.len() == i,
            forall|j: int| 0 <= j < i ==> out@[j] == a@[j] ^ b@[j],
        decreases a@.len() - i,
    {
        out.push(a[i] ^ b[i]);
        i += 1;
    }
    assert(out@ =~= xor_bytes(a@, b@));
    out
}

} // verus!
