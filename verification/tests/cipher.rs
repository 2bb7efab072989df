use crypto::aessafe::AesSafe256Encryptor;
use crypto::buffer::{BufferResult, ReadBuffer, RefReadBuffer, RefWriteBuffer, WriteBuffer};
use crypto::symmetriccipher::BlockEncryptor;
use crypto::{aes, blockmodes};
use filecrypt::cipher::BUFFER_SIZE;
use filecrypt::{decrypt, encrypt, CipherError};
use rand::RngCore;

const LENGTHS: [usize; 8] = [0, 1, 15, 16, 17, 4095, 4096, 4097];

fn key() -> Vec<u8> {
    (0u8..32).map(|i| i.wrapping_mul(7).wrapping_add(3)).collect()
}

fn iv() -> Vec<u8> {
    (0u8..16).map(|i| i.wrapping_mul(13).wrapping_add(1)).collect()
}

/// Bytes that look random and are the same in every run.
fn noise(len: usize, seed: u64) -> Vec<u8> {
    let mut state = seed.wrapping_mul(6364136223846793005).wrapping_add(1442695040888963407);
    let mut out = Vec::with_capacity(len);
    for _ in 0..len {
        state = state.wrapping_mul(6364136223846793005).wrapping_add(1442695040888963407);
        out.push((state >> 33) as u8);
    }
    out
}

fn hex(text: &str) -> Vec<u8> {
    let digits: Vec<u8> = text
        .bytes()
        .filter(|b| !b.is_ascii_whitespace())
        .map(|b| match b {
            b'0'..=b'9' => b - b'0',
            b'a'..=b'f' => b - b'a' + 10,
            _ => panic!("not a hex digit"),
        })
        .collect();
    digits.chunks(2).map(|pair| pair[0] * 16 + pair[1]).collect()
}

/// The same encryption done by the `crypto` crate's own CBC engine.
fn engine_encrypt(data: &[u8], key: &[u8], iv: &[u8]) -> Vec<u8> {
    let mut encryptor = aes::cbc_encryptor(aes::KeySize::KeySize256, key, iv, blockmodes::PkcsPadding);
    let mut out = Vec::new();
    let mut reader = RefReadBuffer::new(data);
    let mut buffer = [0u8; 4096];
    let mut writer = RefWriteBuffer::new(&mut buffer);
    loop {
        let state = encryptor.encrypt(&mut reader, &mut writer, true).unwrap();
        out.extend(writer.take_read_buffer().take_remaining().iter().copied());
        match state {
            BufferResult::BufferUnderflow => break,
            BufferResult::BufferOverflow => {}
        }
    }
    out
}

/// The same decryption done by the `crypto` crate's own CBC engine.
fn engine_decrypt(data: &[u8], key: &[u8], iv: &[u8]) -> Vec<u8> {
    let mut decryptor = aes::cbc_decryptor(aes::KeySize::KeySize256, key, iv, blockmodes::PkcsPadding);
    let mut out = Vec::new();
    let mut reader = RefReadBuffer::new(data);
    let mut buffer = [0u8; 4096];
    let mut writer = RefWriteBuffer::new(&mut buffer);
    loop {
        let state = decryptor.decrypt(&mut reader, &mut writer, true).unwrap();
        out.extend(writer.take_read_buffer().take_remaining().iter().copied());
        match state {
            BufferResult::BufferUnderflow => break,
            BufferResult::BufferOverflow => {}
        }
    }
    out
}

/// Chained encryption of whole blocks, without padding, by the `crypto` crate.
fn engine_encrypt_unpadded(blocks: &[u8], key: &[u8], iv: &[u8]) -> Vec<u8> {
    let mut encryptor = aes::cbc_encryptor(aes::KeySize::KeySize256, key, iv, blockmodes::NoPadding);
    let mut out = vec![0u8; blocks.len()];
    {
        let mut reader = RefReadBuffer::new(blocks);
        let mut writer = RefWriteBuffer::new(&mut out);
        encryptor.encrypt(&mut reader, &mut writer, true).unwrap();
    }
    out
}

#[test]
fn round_trip_for_each_length() {
    for (i, &len) in LENGTHS.iter().enumerate() {
        let data = noise(len, i as u64);
        let ciphertext = encrypt(&data, &key(), &iv()).unwrap();
        assert_eq!(decrypt(&ciphertext, &key(), &iv()), Ok(data));
    }
}

#[test]
fn round_trip_of_random_bytes() {
    let mut rng = rand::thread_rng();
    for &len in LENGTHS.iter() {
        let mut data = vec![0u8; len];
        rng.fill_bytes(&mut data);
        let mut key = [0u8; 32];
        rng.fill_bytes(&mut key);
        let mut iv = [0u8; 16];
        rng.fill_bytes(&mut iv);
        let ciphertext = encrypt(&data, &key, &iv).unwrap();
        assert_eq!(decrypt(&ciphertext, &key, &iv), Ok(data));
    }
}

#[test]
fn padding_is_always_present() {
    for &len in LENGTHS.iter() {
        let ciphertext = encrypt(&noise(len, 9), &key(), &iv()).unwrap();
        assert_eq!(ciphertext.len(), len + (16 - len % 16));
        assert_eq!(ciphertext.len() % 16, 0);
    }
    assert_eq!(encrypt(&[], &key(), &iv()).unwrap().len(), 16);
    assert_eq!(encrypt(&[0u8; 16], &key(), &iv()).unwrap().len(), 32);
    assert_eq!(encrypt(&[0u8; 4096], &key(), &iv()).unwrap().len(), 4112);
    assert_eq!(encrypt(&[0u8; 15], &key(), &iv()).unwrap().len(), 16);
    assert_eq!(encrypt(&[0u8; 17], &key(), &iv()).unwrap().len(), 32);
}

#[test]
fn encryption_is_deterministic() {
    for &len in LENGTHS.iter() {
        let data = noise(len, 21);
        assert_eq!(encrypt(&data, &key(), &iv()), encrypt(&data, &key(), &iv()));
    }
}

#[test]
fn ciphertext_depends_on_key_and_iv() {
    let data = noise(40, 5);
    let base = encrypt(&data, &key(), &iv()).unwrap();
    let mut other_key = key();
    other_key[31] ^= 1;
    let mut other_iv = iv();
    other_iv[0] ^= 1;
    assert_ne!(encrypt(&data, &other_key, &iv()).unwrap(), base);
    assert_ne!(encrypt(&data, &key(), &other_iv).unwrap(), base);
    assert_ne!(base[..40], data[..]);
}

#[test]
fn matches_published_vector() {
    // NIST SP 800-38A, F.2.5 CBC-AES256.Encrypt.
    let key = hex("603deb1015ca71be2b73aef0857d7781 1f352c073b6108d72d9810a30914dff4");
    let iv = hex("000102030405060708090a0b0c0d0e0f");
    let plain = hex(
        "6bc1bee22e409f96e93d7e117393172a ae2d8a571e03ac9c9eb76fac45af8e51 \
         30c81c46a35ce411e5fbc1191a0a52ef f69f2445df4f9b17ad2b417be66c3710",
    );
    let expected = hex(
        "f58c4c04d6e5f1ba779eabfb5f7bfbd6 9cfc4e967edb808d679f777bc6702c7d \
         39f23369a9d9bacfa530e26304231461 b2eb05e2c39be9fcda6c19078c6a9d1b",
    );
    let ciphertext = encrypt(&plain, &key, &iv).unwrap();
    assert_eq!(ciphertext.len(), 80);
    assert_eq!(&ciphertext[..64], &expected[..]);
    assert_eq!(decrypt(&ciphertext, &key, &iv), Ok(plain));
}

#[test]
fn empty_input_gives_one_block_of_padding() {
    let ciphertext = encrypt(&[], &key(), &iv()).unwrap();
    let mixed: Vec<u8> = iv().iter().map(|b| b ^ 16).collect();
    let mut expected = [0u8; 16];
    AesSafe256Encryptor::new(&key()).encrypt_block(&mixed, &mut expected);
    assert_eq!(ciphertext, expected.to_vec());
    assert_eq!(decrypt(&ciphertext, &key(), &iv()), Ok(Vec::new()));
}

#[test]
fn agrees_with_the_engine_of_the_cipher_crate() {
    for (i, &len) in LENGTHS.iter().enumerate() {
        if len == 0 {
            continue;
        }
        let data = noise(len, 100 + i as u64);
        let ciphertext = encrypt(&data, &key(), &iv()).unwrap();
        assert_eq!(ciphertext, engine_encrypt(&data, &key(), &iv()));
        assert_eq!(engine_decrypt(&ciphertext, &key(), &iv()), data);
        assert_eq!(decrypt(&engine_encrypt(&data, &key(), &iv()), &key(), &iv()), Ok(data));
    }
}

#[test]
fn tampering_is_detected() {
    for &len in [0usize, 1, 15, 16, 17, 40].iter() {
        let data = noise(len, 77);
        let ciphertext = encrypt(&data, &key(), &iv()).unwrap();
        for at in 0..ciphertext.len() {
            for bit in [1u8, 0x10, 0x80] {
                let mut tampered = ciphertext.clone();
                tampered[at] ^= bit;
                match decrypt(&tampered, &key(), &iv()) {
                    Ok(plain) => assert_ne!(plain, data),
                    Err(e) => assert_eq!(e, CipherError::InvalidPadding),
                }
            }
        }
    }
}

#[test]
fn tampering_in_a_large_buffer_is_detected() {
    let data = noise(4097, 78);
    let ciphertext = encrypt(&data, &key(), &iv()).unwrap();
    for at in [0usize, 15, 16, 4095, 4096, 4111] {
        let mut tampered = ciphertext.clone();
        tampered[at] ^= 0xff;
        match decrypt(&tampered, &key(), &iv()) {
            Ok(plain) => assert_ne!(plain, data),
            Err(e) => assert_eq!(e, CipherError::InvalidPadding),
        }
    }
}

#[test]
fn wrong_key_or_iv_does_not_give_the_data() {
    let data = noise(100, 3);
    let ciphertext = encrypt(&data, &key(), &iv()).unwrap();
    let mut other_key = key();
    other_key[0] ^= 0x40;
    match decrypt(&ciphertext, &other_key, &iv()) {
        Ok(plain) => assert_ne!(plain, data),
        Err(e) => assert_eq!(e, CipherError::InvalidPadding),
    }
    let mut other_iv = iv();
    other_iv[5] ^= 0x40;
    match decrypt(&ciphertext, &key(), &other_iv) {
        Ok(plain) => assert_ne!(plain, data),
        Err(e) => assert_eq!(e, CipherError::InvalidPadding),
    }
}

#[test]
fn key_of_wrong_length_is_rejected() {
    for len in [0usize, 16, 24, 31, 33, 64] {
        let key = vec![1u8; len];
        assert_eq!(encrypt(b"data", &key, &iv()), Err(CipherError::InvalidKeyLength));
        assert_eq!(decrypt(&[0u8; 16], &key, &iv()), Err(CipherError::InvalidKeyLength));
    }
    // The key is looked at before anything else.
    assert_eq!(encrypt(b"data", &[1u8; 31], &[0u8; 3]), Err(CipherError::InvalidKeyLength));
    assert_eq!(decrypt(&[0u8; 5], &[1u8; 31], &[0u8; 3]), Err(CipherError::InvalidKeyLength));
}

#[test]
fn iv_of_wrong_length_is_rejected() {
    for len in [0usize, 8, 15, 17, 32] {
        let iv = vec![1u8; len];
        assert_eq!(encrypt(b"data", &key(), &iv), Err(CipherError::InvalidIvLength));
        assert_eq!(decrypt(&[0u8; 16], &key(), &iv), Err(CipherError::InvalidIvLength));
    }
    assert_eq!(decrypt(&[0u8; 5], &key(), &[0u8; 3]), Err(CipherError::InvalidIvLength));
}

#[test]
fn ciphertext_of_broken_length_is_rejected() {
    for len in [1usize, 15, 17, 31, 4095, 4097] {
        assert_eq!(decrypt(&noise(len, 1), &key(), &iv()), Err(CipherError::InvalidLength));
    }
    let mut ciphertext = encrypt(&noise(20, 2), &key(), &iv()).unwrap();
    ciphertext.pop();
    assert_eq!(decrypt(&ciphertext, &key(), &iv()), Err(CipherError::InvalidLength));
}

#[test]
fn empty_ciphertext_has_no_padding() {
    assert_eq!(decrypt(&[], &key(), &iv()), Err(CipherError::InvalidPadding));
}

#[test]
fn malformed_padding_is_rejected() {
    let mut cases: Vec<Vec<u8>> = Vec::new();
    // A last byte of zero.
    let mut block = noise(16, 4);
    block[15] = 0;
    cases.push(block);
    // A last byte beyond the block size, alone and as a run.
    let mut block = noise(16, 5);
    block[15] = 17;
    cases.push(block);
    cases.push(vec![17u8; 16]);
    cases.push(vec![32u8; 16]);
    cases.push(vec![255u8; 16]);
    // A run that breaks off too early.
    let mut block = vec![9u8; 16];
    block[15] = 3;
    block[14] = 3;
    cases.push(block);
    let mut block = vec![4u8; 16];
    block[12] = 5;
    cases.push(block);
    // Two blocks, the second one bad.
    let mut blocks = vec![16u8; 32];
    blocks[31] = 0;
    cases.push(blocks);
    for padded in cases {
        let ciphertext = engine_encrypt_unpadded(&padded, &key(), &iv());
        assert_eq!(decrypt(&ciphertext, &key(), &iv()), Err(CipherError::InvalidPadding));
    }
}

#[test]
fn well_formed_padding_is_removed() {
    let mut padded = noise(32, 6);
    padded[31] = 1;
    let ciphertext = engine_encrypt_unpadded(&padded, &key(), &iv());
    assert_eq!(decrypt(&ciphertext, &key(), &iv()), Ok(padded[..31].to_vec()));

    let mut padded = noise(32, 7);
    for b in padded[20..].iter_mut() {
        *b = 12;
    }
    let ciphertext = engine_encrypt_unpadded(&padded, &key(), &iv());
    assert_eq!(decrypt(&ciphertext, &key(), &iv()), Ok(padded[..20].to_vec()));

    let ciphertext = engine_encrypt_unpadded(&[16u8; 16], &key(), &iv());
    assert_eq!(decrypt(&ciphertext, &key(), &iv()), Ok(Vec::new()));
}

#[test]
fn inputs_around_the_buffer_size() {
    for len in [BUFFER_SIZE - 17, BUFFER_SIZE - 16, BUFFER_SIZE - 1, BUFFER_SIZE, BUFFER_SIZE + 1,
        2 * BUFFER_SIZE - 16, 2 * BUFFER_SIZE, 3 * BUFFER_SIZE + 5]
    {
        let data = noise(len, len as u64);
        let ciphertext = encrypt(&data, &key(), &iv()).unwrap();
        assert_eq!(ciphertext, engine_encrypt(&data, &key(), &iv()));
        assert_eq!(decrypt(&ciphertext, &key(), &iv()), Ok(data));
    }
}

#[test]
fn tampering_that_keeps_the_padding_valid_changes_the_data() {
    let key = [0u8; 32];
    let iv = [0u8; 16];
    let mut ciphertext = encrypt(&[0u8; 16], &key, &iv).unwrap();
    assert_eq!(ciphertext.len(), 32);
    // The last byte of the first block is combined into the last byte of the
    // padding: 0x10 becomes 0x01, which is valid padding of one byte.
    ciphertext[15] ^= 0x11;
    let plain = decrypt(&ciphertext, &key, &iv).unwrap();
    assert_eq!(plain.len(), 31);
    assert_eq!(plain[16..], [0x10u8; 15]);
    assert_ne!(plain[..16], [0u8; 16]);
}
