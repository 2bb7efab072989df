//! Encryption and decryption of whole buffers with AES-256 in CBC mode and
//! PKCS#7 padding.

use crate::block::{aes256_encrypt_block, whole_blocks, xor_bytes, BLOCK_SIZE, KEY_SIZE};
use crate::cbc::{
    append, cbc_decrypt, cbc_encrypt, keeps_length, lemma_encrypt_prefix, BufferResult,
    CbcDecryptor, CbcEncryptor,
};
use crate::error::CipherError;
use crate::padding::{
    lemma_pad_length, lemma_pad_unpad, lemma_unpad_pad, pad_len, pkcs7_pad, pkcs7_unpad,
};
use vstd::prelude::*;

verus! {

/// Bytes of output that one step of a stream may produce.
pub const BUFFER_SIZE: usize = 4096;

/// What encryption of `data` gives: an error for a key or an initialization
/// vector of the wrong length, the key being looked at first, and else the
/// chained encryption of the padded data.
pub open spec fn encrypt_spec(data: Seq<u8>, key: Seq<u8>, iv: Seq<u8>) -> Result<
    Seq<u8>,
    CipherError,
> {
    if key.len() != KEY_SIZE {
        Err(CipherError::InvalidKeyLength)
    } else if iv.len() != BLOCK_SIZE {
        Err(CipherError::InvalidIvLength)
    } else {
        Ok(cbc_encrypt(key, iv, pkcs7_pad(data)))
    }
}

/// What decryption of `ciphertext` gives: an error for a key or an
/// initialization vector of the wrong length, for a ciphertext that is not a
/// whole number of blocks, or for one whose chained decryption does not end in
/// valid padding (an empty ciphertext among them), in this order; and else that
/// decryption without its padding.
pub open spec fn decrypt_spec(ciphertext: Seq<u8>, key: Seq<u8>, iv: Seq<u8>) -> Result<
    Seq<u8>,
    CipherError,
> {
    if key.len() != KEY_SIZE {
        Err(CipherError::InvalidKeyLength)
    } else if iv.len() != BLOCK_SIZE {
        Err(CipherError::InvalidIvLength)
    } else if !whole_blocks(ciphertext.len()) {
        Err(CipherError::InvalidLength)
    } else {
        match pkcs7_unpad(cbc_decrypt(key, iv, ciphertext)) {
            Some(data) => Ok(data),
            None => Err(CipherError::InvalidPadding),
        }
    }
}

/// The bytes of a result, in place of the vector that holds them.
pub open spec fn bytes_of(result: Result<Vec<u8>, CipherError>) -> Result<Seq<u8>, CipherError> {
    match result {
        Ok(bytes) => Ok(bytes@),
        Err(e) => Err(e),
    }
}

/// What [`encrypt`] promises of its result.
pub open spec fn encrypt_ensures(
    data: Seq<u8>,
    key: Seq<u8>,
    iv: Seq<u8>,
    result: Result<Seq<u8>, CipherError>,
) -> bool {
    // The result is the one that the model gives.
    &&& result == encrypt_spec(data, key, iv)
    // Padding is always present: between one byte and a whole block is added.
    &&& result matches Ok(ciphertext) ==> ciphertext.len() == data.len() + pad_len(data.len())
    // Decryption under the same key and initialization vector gives the data back.
    &&& result matches Ok(ciphertext) ==> decrypt_spec(ciphertext, key, iv) == Ok::<
        Seq<u8>,
        CipherError,
    >(data)
    // Each whole-block prefix of the padded data has a ciphertext of its own length.
    &&& result matches Ok(ciphertext) ==> keeps_length(key, iv, pkcs7_pad(data))
}

/// What [`decrypt`] promises of its result.
pub open spec fn decrypt_ensures(
    ciphertext: Seq<u8>,
    key: Seq<u8>,
    iv: Seq<u8>,
    result: Result<Seq<u8>, CipherError>,
) -> bool {
    // The result is the one that the model gives.
    &&& result == decrypt_spec(ciphertext, key, iv)
    // Only the encryption of the plaintext decrypts to it: encrypting what
    // came out gives the ciphertext back.
    &&& result matches Ok(data) ==> encrypt_spec(data, key, iv) == Ok::<Seq<u8>, CipherError>(
        ciphertext,
    )
    // The plaintext is shorter than the ciphertext by its padding.
    &&& result matches Ok(data) ==> ciphertext.len() == data.len() + pad_len(data.len())
    // Whatever the ciphertext holds, its chained decryption is as long as it is.
    &&& key.len() == KEY_SIZE && iv.len() == BLOCK_SIZE && whole_blocks(ciphertext.len())
        ==> cbc_decrypt(key, iv, ciphertext).len() == ciphertext.len()
}

/// Encrypts `data` with AES-256 in CBC mode under a 32-byte `key` and a
/// 16-byte `iv`, after padding it to whole blocks. The ciphertext is produced
/// one buffer of [`BUFFER_SIZE`] bytes at a time.
pub fn encrypt(data: &[u8], key: &[u8], iv: &[u8]) -> (result: Result<Vec<u8>, CipherError>)
    ensures
        encrypt_ensures(data@, key@, iv@, bytes_of(result)),
{
    let mut encryptor = match CbcEncryptor::new(key, iv, data) {
        Ok(stream) => stream,
        Err(e) => {
            return Err(e);
        },
    };
    let mut final_result: Vec<u8> = Vec::new();
    let mut buffer: Vec<u8> = Vec::with_capacity(BUFFER_SIZE);
    loop
        invariant_except_break
            !encryptor.finished(),
        invariant
            encryptor.wf(),
            encryptor.key() == key@,
            encryptor.iv() == iv@,
            encryptor.input() == data@,
            final_result@ == encryptor.written(),
        ensures
            encryptor.finished(),
        decreases pkcs7_pad(data@).len() - final_result@.len(),
    {
        let result = encryptor.encrypt(&mut buffer, BUFFER_SIZE);
        append(&mut final_result, buffer.as_slice());
        proof {
            encryptor.lemma_written();
        }
        match result {
            BufferResult::BufferUnderflow => {
                break ;
            },
            BufferResult::BufferOverflow => {},
        }
    }
    proof {
        encryptor.lemma_written();
        lemma_pad_length(data@);
        lemma_unpad_pad(data@);
    }
    Ok(final_result)
}

/// Decrypts `ciphertext` with AES-256 in CBC mode under a 32-byte `key` and a
/// 16-byte `iv`, and removes the padding. The plaintext is produced one buffer
/// of [`BUFFER_SIZE`] bytes at a time. Malformed padding is reported by one
/// error, whichever byte of it is wrong.
pub fn decrypt(encrypted_data: &[u8], key: &[u8], iv: &[u8]) -> (result: Result<
    Vec<u8>,
    CipherError,
>)
    ensures
        decrypt_ensures(encrypted_data@, key@, iv@, bytes_of(result)),
{
    let mut decryptor = match CbcDecryptor::new(key, iv, encrypted_data) {
        Ok(stream) => stream,
        Err(e) => {
            return Err(e);
        },
    };
    let mut final_result: Vec<u8> = Vec::new();
    let mut buffer: Vec<u8> = Vec::with_capacity(BUFFER_SIZE);
    loop
        invariant_except_break
            !decryptor.finished(),
        invariant
            decryptor.wf(),
            decryptor.key() == key@,
            decryptor.iv() == iv@,
            decryptor.input() == encrypted_data@,
            !decryptor.failed(),
            final_result@ == decryptor.written(),
        ensures
            decryptor.finished(),
        decreases encrypted_data@.len() - final_result@.len(),
    {
        let step = decryptor.decrypt(&mut buffer, BUFFER_SIZE);
        proof {
            decryptor.lemma_written();
        }
        match step {
            Err(e) => {
                return Err(e);
            },
            Ok(result) => {
                append(&mut final_result, buffer.as_slice());
                match result {
                    BufferResult::BufferUnderflow => {
                        break ;
                    },
                    BufferResult::BufferOverflow => {},
                }
            },
        }
    }
    proof {
        decryptor.lemma_written();
        lemma_pad_unpad(cbc_decrypt(key@, iv@, encrypted_data@));
    }
    Ok(final_result)
}

/// Round trip: with a key and an initialization vector of the right lengths,
/// what `encrypt` returns for `data` is a ciphertext that `decrypt` turns back
/// into exactly `data`.
pub proof fn lemma_round_trip(
    data: Seq<u8>,
    key: Seq<u8>,
    iv: Seq<u8>,
    encrypted: Result<Seq<u8>, CipherError>,
    decrypted: Result<Seq<u8>, CipherError>,
)
    requires
        key.len() == KEY_SIZE,
        iv.len() == BLOCK_SIZE,
        encrypt_ensures(data, key, iv, encrypted),
        encrypted is Ok ==> decrypt_ensures(encrypted.unwrap(), key, iv, decrypted),
    ensures
        encrypted is Ok,
        decrypted == Ok::<Seq<u8>, CipherError>(data),
{
}

/// Padding is always present: the ciphertext is longer than the data by what
/// is missing to the next whole block, and by a whole block where the data
/// already ends at a block boundary.
pub proof fn lemma_ciphertext_length(
    data: Seq<u8>,
    key: Seq<u8>,
    iv: Seq<u8>,
    encrypted: Result<Seq<u8>, CipherError>,
)
    requires
        encrypt_ensures(data, key, iv, encrypted),
        encrypted is Ok,
    ensures
        encrypted.unwrap().len() == data.len() + (BLOCK_SIZE - data.len() % (BLOCK_SIZE as nat)),
        whole_blocks(data.len()) ==> encrypted.unwrap().len() == data.len() + BLOCK_SIZE,
        whole_blocks(encrypted.unwrap().len()),
{
}

/// The first `k` bytes of the ciphertext, `k` a whole number of blocks, are the
/// ciphertext of the first `k` bytes of the padded data.
pub proof fn lemma_ciphertext_prefix(
    data: Seq<u8>,
    key: Seq<u8>,
    iv: Seq<u8>,
    encrypted: Result<Seq<u8>, CipherError>,
    k: int,
)
    requires
        encrypt_ensures(data, key, iv, encrypted),
        encrypted is Ok,
        0 <= k <= pkcs7_pad(data).len(),
        k % (BLOCK_SIZE as int) == 0,
    ensures
        encrypted.unwrap().subrange(0, k) == cbc_encrypt(key, iv, pkcs7_pad(data).subrange(0, k)),
        encrypted.unwrap().subrange(0, k).len() == k,
{
    lemma_pad_length(data);
    lemma_encrypt_prefix(key, iv, pkcs7_pad(data), k);
}

/// Prefix independence: two inputs that agree in their first `k` bytes, `k` a
/// whole number of blocks, have ciphertexts that agree in their first `k`
/// bytes, whatever follows in either.
pub proof fn lemma_prefix_independence(
    first: Seq<u8>,
    second: Seq<u8>,
    key: Seq<u8>,
    iv: Seq<u8>,
    encrypted_first: Result<Seq<u8>, CipherError>,
    encrypted_second: Result<Seq<u8>, CipherError>,
    k: int,
)
    requires
        encrypt_ensures(first, key, iv, encrypted_first),
        encrypt_ensures(second, key, iv, encrypted_second),
        encrypted_first is Ok,
        0 <= k <= first.len(),
        k <= second.len(),
        k % (BLOCK_SIZE as int) == 0,
        first.subrange(0, k) == second.subrange(0, k),
    ensures
        encrypted_second is Ok,
        encrypted_first.unwrap().subrange(0, k) == encrypted_second.unwrap().subrange(0, k),
{
    lemma_ciphertext_prefix(first, key, iv, encrypted_first, k);
    lemma_ciphertext_prefix(second, key, iv, encrypted_second, k);
    assert(pkcs7_pad(first).subrange(0, k) =~= first.subrange(0, k));
    assert(pkcs7_pad(second).subrange(0, k) =~= second.subrange(0, k));
}

/// The first block of the ciphertext is the block cipher's encryption of the
/// first block of the padded data combined with the initialization vector.
pub proof fn lemma_first_block(
    data: Seq<u8>,
    key: Seq<u8>,
    iv: Seq<u8>,
    encrypted: Result<Seq<u8>, CipherError>,
)
    requires
        encrypt_ensures(data, key, iv, encrypted),
        encrypted is Ok,
    ensures
        encrypted.unwrap().subrange(0, BLOCK_SIZE as int) == aes256_encrypt_block(
            key,
            xor_bytes(pkcs7_pad(data).subrange(0, BLOCK_SIZE as int), iv),
        ),
{
    let first = pkcs7_pad(data).subrange(0, BLOCK_SIZE as int);
    lemma_pad_length(data);
    lemma_ciphertext_prefix(data, key, iv, encrypted, BLOCK_SIZE as int);
    assert(first.subrange(0, 0) =~= Seq::<u8>::empty());
    assert(first.subrange(0, BLOCK_SIZE as int) =~= first);
    assert(cbc_encrypt(key, iv, first.subrange(0, 0)) =~= Seq::<u8>::empty());
    assert(cbc_encrypt(key, iv, first) =~= aes256_encrypt_block(key, xor_bytes(first, iv)));
}

/// Determinism: two encryptions of the same data under the same key and
/// initialization vector give the same result.
pub proof fn lemma_encrypt_deterministic(
    data: Seq<u8>,
    key: Seq<u8>,
    iv: Seq<u8>,
    first: Result<Seq<u8>, CipherError>,
    second: Result<Seq<u8>, CipherError>,
)
    requires
        encrypt_ensures(data, key, iv, first),
        encrypt_ensures(data, key, iv, second),
    ensures
        first == second,
{
}

/// Tamper detection: a ciphertext that differs from the encryption of `data`
/// in any of its bytes, and not in its length, either fails to decrypt for
/// its padding or decrypts to something other than `data`.
pub proof fn lemma_tampering_detected(
    data: Seq<u8>,
    key: Seq<u8>,
    iv: Seq<u8>,
    encrypted: Result<Seq<u8>, CipherError>,
    tampered: Seq<u8>,
    decrypted: Result<Seq<u8>, CipherError>,
)
    requires
        key.len() == KEY_SIZE,
        iv.len() == BLOCK_SIZE,
        encrypt_ensures(data, key, iv, encrypted),
        encrypted is Ok ==> tampered.len() == encrypted.unwrap().len() && tampered
            != encrypted.unwrap(),
        decrypt_ensures(tampered, key, iv, decrypted),
    ensures
        decrypted == Err::<Seq<u8>, CipherError>(CipherError::InvalidPadding) || (decrypted is Ok
            && decrypted.unwrap() != data),
{
    lemma_ciphertext_length(data, key, iv, encrypted);
}

} // verus!
