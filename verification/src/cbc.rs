//! Cipher block chaining: each block is combined with the ciphertext block
//! before it, the first with the initialization vector, and then put through
//! the block cipher. The two stream types work through an input of any length
//! one bounded output buffer at a time.
//!
//! The chaining is done here, block by block over the block cipher of the
//! `crypto` crate, and not by that crate's own chaining engine. That engine
//! emits nothing for an empty input and takes any last byte for padding; and
//! what one of its steps leaves in a buffer is decided by a state machine of
//! several pages, so that what a prefix of the input gives, that chunks add up
//! to the single pass, and that decryption undoes encryption could only be
//! believed of it. Here they are proved from two short definitions.

use crate::block::{
    aes256_decrypt_block, aes256_encrypt_block, decrypt_block, encrypt_block, lemma_xor_cancels,
    whole_blocks, xor_block, xor_bytes, BLOCK_SIZE, KEY_SIZE,
};
use crate::error::CipherError;
use crate::padding::{
    data_len, lemma_pad_length, lemma_pad_split, lemma_unpad_last_block, pad_block, pkcs7_pad,
    pkcs7_unpad, valid_padding,
};
use vstd::prelude::*;
use vstd::slice::{slice_subrange, slice_to_vec};

verus! {

/// The block that the next block is chained to: the last block of the
/// ciphertext so far, or the initialization vector where there is none yet.
pub open spec fn chain_block(iv: Seq<u8>, ciphertext: Seq<u8>) -> Seq<u8> {
    if ciphertext.len() < BLOCK_SIZE {
        iv
    } else {
        ciphertext.subrange(ciphertext.len() - BLOCK_SIZE, ciphertext.len() as int)
    }
}

/// The ciphertext of `blocks`, a sequence of whole blocks: the ciphertext of
/// all blocks but the last, followed by the encryption of the last block
/// combined with the block it is chained to.
pub open spec fn cbc_encrypt(key: Seq<u8>, iv: Seq<u8>, blocks: Seq<u8>) -> Seq<u8>
    decreases blocks.len(),
{
    if blocks.len() < BLOCK_SIZE {
        Seq::empty()
    } else {
        let head = cbc_encrypt(key, iv, blocks.subrange(0, blocks.len() - BLOCK_SIZE));
        let last = blocks.subrange(blocks.len() - BLOCK_SIZE, blocks.len() as int);
        head + aes256_encrypt_block(key, xor_bytes(last, chain_block(iv, head)))
    }
}

/// The plaintext of `blocks`, a sequence of whole ciphertext blocks: the
/// plaintext of all blocks but the last, followed by the decryption of the last
/// block combined with the ciphertext block before it.
pub open spec fn cbc_decrypt(key: Seq<u8>, iv: Seq<u8>, blocks: Seq<u8>) -> Seq<u8>
    decreases blocks.len(),
{
    if blocks.len() < BLOCK_SIZE {
        Seq::empty()
    } else {
        let head = blocks.subrange(0, blocks.len() - BLOCK_SIZE);
        let last = blocks.subrange(blocks.len() - BLOCK_SIZE, blocks.len() as int);
        cbc_decrypt(key, iv, head) + xor_bytes(
            aes256_decrypt_block(key, last),
            chain_block(iv, head),
        )
    }
}

/// Encrypting one more block leaves the ciphertext of the blocks before it
/// as it was.
pub proof fn lemma_encrypt_extend(key: Seq<u8>, iv: Seq<u8>, head: Seq<u8>, block: Seq<u8>)
    requires
        block.len() == BLOCK_SIZE,
    ensures
        cbc_encrypt(key, iv, head + block) == cbc_encrypt(key, iv, head) + aes256_encrypt_block(
            key,
            xor_bytes(block, chain_block(iv, cbc_encrypt(key, iv, head))),
        ),
{
    let all = head + block;
    assert(all.subrange(0, all.len() - BLOCK_SIZE) =~= head);
    assert(all.subrange(all.len() - BLOCK_SIZE, all.len() as int) =~= block);
}

/// Decrypting one more block leaves the plaintext of the blocks before it
/// as it was.
pub proof fn lemma_decrypt_extend(key: Seq<u8>, iv: Seq<u8>, head: Seq<u8>, block: Seq<u8>)
    requires
        block.len() == BLOCK_SIZE,
    ensures
        cbc_decrypt(key, iv, head + block) == cbc_decrypt(key, iv, head) + xor_bytes(
            aes256_decrypt_block(key, block),
            chain_block(iv, head),
        ),
{
    let all = head + block;
    assert(all.subrange(0, all.len() - BLOCK_SIZE) =~= head);
    assert(all.subrange(all.len() - BLOCK_SIZE, all.len() as int) =~= block);
}

/// Whether the ciphertext of each whole-block prefix of `blocks`, up to `upto`
/// bytes, is as long as the prefix.
pub open spec fn keeps_length_upto(key: Seq<u8>, iv: Seq<u8>, blocks: Seq<u8>, upto: int) -> bool {
    forall|k: int|
        0 <= k <= upto && k % (BLOCK_SIZE as int) == 0 ==> cbc_encrypt(
            key,
            iv,
            #[trigger] blocks.subrange(0, k),
        ).len() == k
}

/// Whether the ciphertext of each whole-block prefix of `blocks` is as long as
/// the prefix.
pub open spec fn keeps_length(key: Seq<u8>, iv: Seq<u8>, blocks: Seq<u8>) -> bool {
    keeps_length_upto(key, iv, blocks, blocks.len() as int)
}

/// The ciphertext of a whole-block prefix is the beginning of the ciphertext
/// of the whole: what comes later in the data changes nothing before it.
pub proof fn lemma_encrypt_prefix(key: Seq<u8>, iv: Seq<u8>, blocks: Seq<u8>, k: int)
    requires
        whole_blocks(blocks.len()),
        0 <= k <= blocks.len(),
        k % (BLOCK_SIZE as int) == 0,
        cbc_encrypt(key, iv, blocks.subrange(0, k)).len() == k,
    ensures
        cbc_encrypt(key, iv, blocks).len() >= k,
        cbc_encrypt(key, iv, blocks).subrange(0, k) == cbc_encrypt(
            key,
            iv,
            blocks.subrange(0, k),
        ),
    decreases blocks.len() - k,
{
    let n = blocks.len() as int;
    if k == n {
        assert(blocks.subrange(0, n) =~= blocks);
        assert(cbc_encrypt(key, iv, blocks).subrange(0, k) =~= cbc_encrypt(key, iv, blocks));
    } else {
        let head = blocks.subrange(0, n - BLOCK_SIZE);
        assert(head.subrange(0, k) =~= blocks.subrange(0, k));
        lemma_encrypt_prefix(key, iv, head, k);
        assert(cbc_encrypt(key, iv, blocks).subrange(0, k) =~= cbc_encrypt(key, iv, head).subrange(
            0,
            k,
        ));
    }
}

/// What a step of a stream reports when it returns.
#[derive(Clone, Copy, Debug, PartialEq, Eq, Structural)]
pub enum BufferResult {
    /// The whole input has been worked through and its output handed out.
    BufferUnderflow,
    /// The output buffer is full and more output is to come.
    BufferOverflow,
}

/// An encryption in progress: the plaintext, the key material, and how far the
/// work has come.
pub struct CbcEncryptor<'a> {
    key: &'a [u8],
    iv: &'a [u8],
    input: &'a [u8],
    /// The last ciphertext block produced, or the initialization vector.
    chain: Vec<u8>,
    /// Bytes of the input that have been encrypted, always whole blocks.
    pos: usize,
    /// Whether the last, padded block has been encrypted.
    finished: bool,
}

impl<'a> CbcEncryptor<'a> {
    pub closed spec fn key(&self) -> Seq<u8> {
        self.key@
    }

    pub closed spec fn iv(&self) -> Seq<u8> {
        self.iv@
    }

    /// The plaintext, without padding.
    pub closed spec fn input(&self) -> Seq<u8> {
        self.input@
    }

    /// Whether the whole padded plaintext has been encrypted.
    pub closed spec fn finished(&self) -> bool {
        self.finished
    }

    /// Bytes of the padded plaintext that have been encrypted.
    pub closed spec fn consumed(&self) -> nat {
        if self.finished {
            pkcs7_pad(self.input@).len()
        } else {
            self.pos as nat
        }
    }

    /// The ciphertext handed out so far, over all steps.
    pub open spec fn written(&self) -> Seq<u8> {
        cbc_encrypt(
            self.key(),
            self.iv(),
            pkcs7_pad(self.input()).subrange(0, self.consumed() as int),
        )
    }

    /// The invariant of the stream: it stands at a block boundary of its
    /// input, holds the block to chain to, and what it has written is as long
    /// as what it has consumed and decrypts to it.
    pub closed spec fn wf(&self) -> bool {
        &&& self.key@.len() == KEY_SIZE
        &&& self.iv@.len() == BLOCK_SIZE
        &&& self.pos % BLOCK_SIZE == 0
        &&& self.pos <= self.input@.len()
        &&& self.finished ==> self.input@.len() - self.pos < BLOCK_SIZE
        &&& self.consumed() <= pkcs7_pad(self.input@).len()
        &&& keeps_length_upto(
            self.key@,
            self.iv@,
            pkcs7_pad(self.input@),
            self.consumed() as int,
        )
        &&& self.written().len() == self.consumed()
        &&& self.chain@ == chain_block(self.iv@, self.written())
        &&& cbc_decrypt(self.key@, self.iv@, self.written()) == pkcs7_pad(self.input@).subrange(
            0,
            self.consumed() as int,
        )
    }

    /// Starts an encryption of `input` under `key` and `iv`; nothing has been
    /// written yet.
    pub fn new(key: &'a [u8], iv: &'a [u8], input: &'a [u8]) -> (stream: Result<
        CbcEncryptor<'a>,
        CipherError,
    >)
        ensures
            key@.len() != KEY_SIZE ==> stream == Err::<CbcEncryptor<'a>, CipherError>(
                CipherError::InvalidKeyLength,
            ),
            key@.len() == KEY_SIZE && iv@.len() != BLOCK_SIZE ==> stream == Err::<
                CbcEncryptor<'a>,
                CipherError,
            >(CipherError::InvalidIvLength),
            key@.len() == KEY_SIZE && iv@.len() == BLOCK_SIZE ==> stream is Ok && {
                let s = stream.unwrap();
                &&& s.wf()
                &&& s.key() == key@
                &&& s.iv() == iv@
                &&& s.input() == input@
                &&& !s.finished()
                &&& s.written() == Seq::<u8>::empty()
            },
    {
        if key.len() != KEY_SIZE {
            return Err(CipherError::InvalidKeyLength);
        }
        if iv.len() != BLOCK_SIZE {
            return Err(CipherError::InvalidIvLength);
        }
        let chain = slice_to_vec(iv);
        let stream = CbcEncryptor { key, iv, input, chain, pos: 0, finished: false };
        proof {
            lemma_pad_length(input@);
            assert(pkcs7_pad(input@).subrange(0, 0) =~= Seq::<u8>::empty());
        }
        Ok(stream)
    }

    /// Encrypts as many further blocks as `output` can take within `capacity`
    /// bytes, the padded last block included, and puts them into `output` in
    /// place of what it held.
    pub fn encrypt(&mut self, output: &mut Vec<u8>, capacity: usize) -> (result: BufferResult)
        requires
            old(self).wf(),
            capacity >= BLOCK_SIZE,
        ensures
            final(self).wf(),
            final(self).key() == old(self).key(),
            final(self).iv() == old(self).iv(),
            final(self).input() == old(self).input(),
            final(self).written() == old(self).written() + final(output)@,
            final(output)@.len() <= capacity,
            result is BufferUnderflow <==> final(self).finished(),
            result is BufferOverflow ==> final(output)@.len() + BLOCK_SIZE > capacity,
    {
        output.clear();
        assert(self.written() + output@ =~= self.written());
        while !self.finished && capacity - output.len() >= BLOCK_SIZE
            invariant
                self.wf(),
                self.key() == old(self).key(),
                self.iv() == old(self).iv(),
                self.input() == old(self).input(),
                self.written() == old(self).written() + output@,
                output@.len() <= capacity,
                capacity >= BLOCK_SIZE,
            decreases pkcs7_pad(self.input@).len() - self.consumed(),
        {
            let ghost padded = pkcs7_pad(self.input@);
            let ghost before = self.written();
            let ghost done = self.pos as int;
            let last = self.input.len() - self.pos < BLOCK_SIZE;
            let plain: Vec<u8> = if last {
                pad_block(slice_subrange(self.input, self.pos, self.input.len()))
            } else {
                slice_to_vec(slice_subrange(self.input, self.pos, self.pos + BLOCK_SIZE))
            };
            proof {
                lemma_pad_length(self.input@);
                lemma_pad_split(self.input@, done);
                if last {
                    assert(padded.subrange(0, padded.len() as int) =~= padded.subrange(0, done)
                        + plain@);
                } else {
                    assert(padded.subrange(0, done + BLOCK_SIZE) =~= padded.subrange(0, done)
                        + plain@);
                }
            }
            let mixed = xor_block(plain.as_slice(), self.chain.as_slice());
            let cipher = encrypt_block(self.key, mixed.as_slice());
            append(output, cipher.as_slice());
            self.chain = cipher;
            if last {
                self.finished = true;
            } else {
                self.pos = self.pos + BLOCK_SIZE;
            }
            proof {
                lemma_encrypt_extend(self.key@, self.iv@, padded.subrange(0, done), plain@);
                assert(self.written() == before + cipher@);
                lemma_decrypt_extend(self.key@, self.iv@, before, cipher@);
                lemma_xor_cancels(plain@, chain_block(self.iv@, before));
                assert(chain_block(self.iv@, self.written()) =~= cipher@);
                assert(old(self).written() + output@ =~= self.written());
            }
        }
        if self.finished {
            BufferResult::BufferUnderflow
        } else {
            BufferResult::BufferOverflow
        }
    }

    /// What has been written never exceeds the padded plaintext, and a
    /// finished stream has written the ciphertext of all of it, which decrypts
    /// to it.
    pub proof fn lemma_written(&self)
        requires
            self.wf(),
        ensures
            self.key().len() == KEY_SIZE,
            self.iv().len() == BLOCK_SIZE,
            self.written().len() <= pkcs7_pad(self.input()).len(),
            whole_blocks(self.written().len()),
            keeps_length_upto(
                self.key(),
                self.iv(),
                pkcs7_pad(self.input()),
                self.written().len() as int,
            ),
            self.finished() ==> {
                &&& self.written() == cbc_encrypt(self.key(), self.iv(), pkcs7_pad(self.input()))
                &&& self.written().len() == pkcs7_pad(self.input()).len()
                &&& keeps_length(self.key(), self.iv(), pkcs7_pad(self.input()))
                &&& cbc_decrypt(self.key(), self.iv(), self.written()) == pkcs7_pad(self.input())
            },
    {
        let padded = pkcs7_pad(self.input@);
        assert(padded.subrange(0, padded.len() as int) =~= padded);
    }
}

/// A decryption in progress: the ciphertext, the key material, and how far
/// the work has come.
pub struct CbcDecryptor<'a> {
    key: &'a [u8],
    iv: &'a [u8],
    input: &'a [u8],
    /// Bytes of the input that have been decrypted, always whole blocks.
    pos: usize,
    /// Whether the last block has been decrypted and its padding removed.
    finished: bool,
    /// Whether the last block has been decrypted and its padding found
    /// malformed.
    failed: bool,
}

impl<'a> CbcDecryptor<'a> {
    pub closed spec fn key(&self) -> Seq<u8> {
        self.key@
    }

    pub closed spec fn iv(&self) -> Seq<u8> {
        self.iv@
    }

    /// The ciphertext.
    pub closed spec fn input(&self) -> Seq<u8> {
        self.input@
    }

    /// Whether the whole plaintext has been handed out.
    pub closed spec fn finished(&self) -> bool {
        self.finished
    }

    /// Whether the padding was found malformed.
    pub closed spec fn failed(&self) -> bool {
        self.failed
    }

    /// Bytes of the ciphertext that have been decrypted.
    pub closed spec fn consumed(&self) -> nat {
        self.pos as nat
    }

    /// The plaintext handed out so far, over all steps: the plaintext of the
    /// blocks consumed, without its padding once the last block is among them.
    pub open spec fn written(&self) -> Seq<u8> {
        if self.finished() {
            pkcs7_unpad(cbc_decrypt(self.key(), self.iv(), self.input())).unwrap()
        } else {
            cbc_decrypt(self.key(), self.iv(), self.input().subrange(0, self.consumed() as int))
        }
    }

    /// The invariant of the stream: it stands at a block boundary of its
    /// input, before the last block unless it has finished, and what it has
    /// decrypted is as long as what it has consumed and encrypts to it.
    pub closed spec fn wf(&self) -> bool {
        let prefix = self.input@.subrange(0, self.pos as int);
        let plain = cbc_decrypt(self.key@, self.iv@, prefix);
        &&& self.key@.len() == KEY_SIZE
        &&& self.iv@.len() == BLOCK_SIZE
        &&& whole_blocks(self.input@.len())
        &&& self.pos % BLOCK_SIZE == 0
        &&& self.pos <= self.input@.len()
        &&& !(self.finished && self.failed)
        &&& if self.finished {
            self.pos == self.input@.len() && valid_padding(plain)
        } else {
            self.pos < self.input@.len() || self.input@.len() == 0
        }
        &&& self.failed ==> !valid_padding(cbc_decrypt(self.key@, self.iv@, self.input@))
        &&& self.failed ==> cbc_decrypt(self.key@, self.iv@, self.input@).len()
            == self.input@.len()
        &&& plain.len() == self.pos
        &&& cbc_encrypt(self.key@, self.iv@, plain) == prefix
    }

    /// Starts a decryption of `input` under `key` and `iv`; nothing has been
    /// written yet.
    pub fn new(key: &'a [u8], iv: &'a [u8], input: &'a [u8]) -> (stream: Result<
        CbcDecryptor<'a>,
        CipherError,
    >)
        ensures
            key@.len() != KEY_SIZE ==> stream == Err::<CbcDecryptor<'a>, CipherError>(
                CipherError::InvalidKeyLength,
            ),
            key@.len() == KEY_SIZE && iv@.len() != BLOCK_SIZE ==> stream == Err::<
                CbcDecryptor<'a>,
                CipherError,
            >(CipherError::InvalidIvLength),
            key@.len() == KEY_SIZE && iv@.len() == BLOCK_SIZE && !whole_blocks(input@.len())
                ==> stream == Err::<CbcDecryptor<'a>, CipherError>(CipherError::InvalidLength),
            key@.len() == KEY_SIZE && iv@.len() == BLOCK_SIZE && whole_blocks(input@.len())
                ==> stream is Ok && {
                let s = stream.unwrap();
                &&& s.wf()
                &&& s.key() == key@
                &&& s.iv() == iv@
                &&& s.input() == input@
                &&& !s.finished()
                &&& !s.failed()
                &&& s.written() == Seq::<u8>::empty()
            },
    {
        if key.len() != KEY_SIZE {
            return Err(CipherError::InvalidKeyLength);
        }
        if iv.len() != BLOCK_SIZE {
            return Err(CipherError::InvalidIvLength);
        }
        if input.len() % BLOCK_SIZE != 0 {
            return Err(CipherError::InvalidLength);
        }
        let stream = CbcDecryptor { key, iv, input, pos: 0, finished: false, failed: false };
        assert(input@.subrange(0, 0) =~= Seq::<u8>::empty());
        Ok(stream)
    }

    /// Decrypts as many further blocks as `output` can take within `capacity`
    /// bytes and puts their plaintext into `output` in place of what it held.
    /// The last block is checked for its padding and handed out without it;
    /// where the padding is malformed, or the input is empty and so has none,
    /// this and every later step fail.
    pub fn decrypt(&mut self, output: &mut Vec<u8>, capacity: usize) -> (result: Result<
        BufferResult,
        CipherError,
    >)
        requires
            old(self).wf(),
            capacity >= BLOCK_SIZE,
        ensures
            final(self).wf(),
            final(self).key() == old(self).key(),
            final(self).iv() == old(self).iv(),
            final(self).input() == old(self).input(),
            match result {
                Ok(state) => {
                    &&& !final(self).failed()
                    &&& final(self).written() == old(self).written() + final(output)@
                    &&& final(output)@.len() <= capacity
                    &&& state is BufferUnderflow <==> final(self).finished()
                    &&& state is BufferOverflow ==> final(output)@.len() + BLOCK_SIZE > capacity
                },
                Err(e) => e == CipherError::InvalidPadding && final(self).failed(),
            },
    {
        output.clear();
        assert(self.written() + output@ =~= self.written());
        if self.failed {
            return Err(CipherError::InvalidPadding);
        }
        if self.input.len() == 0 {
            self.failed = true;
            return Err(CipherError::InvalidPadding);
        }
        while !self.finished && capacity - output.len() >= BLOCK_SIZE
            invariant
                self.wf(),
                !self.failed,
                self.input@.len() > 0,
                self.key() == old(self).key(),
                self.iv() == old(self).iv(),
                self.input() == old(self).input(),
                self.written() == old(self).written() + output@,
                output@.len() <= capacity,
                capacity >= BLOCK_SIZE,
            decreases self.input@.len() - self.pos + (if self.finished { 0int } else { 1int }),
        {
            let ghost done = self.pos as int;
            let ghost prefix = self.input@.subrange(0, done);
            let ghost before = cbc_decrypt(self.key@, self.iv@, prefix);
            let last = self.input.len() - self.pos == BLOCK_SIZE;
            assert(self.pos + BLOCK_SIZE <= self.input@.len()) by {
                assert(whole_blocks(self.input@.len()));
            }
            let block = slice_subrange(self.input, self.pos, self.pos + BLOCK_SIZE);
            let chain = if self.pos == 0 {
                self.iv
            } else {
                slice_subrange(self.input, self.pos - BLOCK_SIZE, self.pos)
            };
            let raw = decrypt_block(self.key, block);
            let plain = xor_block(raw.as_slice(), chain);
            proof {
                assert(chain@ =~= chain_block(self.iv@, prefix));
                assert(self.input@.subrange(0, done + BLOCK_SIZE) =~= prefix + block@);
                lemma_decrypt_extend(self.key@, self.iv@, prefix, block@);
                lemma_encrypt_extend(self.key@, self.iv@, before, plain@);
                lemma_xor_cancels(raw@, chain@);
            }
            if last {
                proof {
                    assert(self.input@.subrange(0, self.input@.len() as int) =~= self.input@);
                    let padded = before + plain@;
                    assert(padded.subrange(padded.len() - BLOCK_SIZE, padded.len() as int)
                        =~= plain@);
                    assert(padded.subrange(0, padded.len() - BLOCK_SIZE) =~= before);
                    lemma_unpad_last_block(padded);
                }
                match data_len(plain.as_slice()) {
                    Some(n) => {
                        append(output, slice_subrange(plain.as_slice(), 0, n));
                        self.pos = self.pos + BLOCK_SIZE;
                        self.finished = true;
                        assert(old(self).written() + output@ =~= self.written());
                    },
                    None => {
                        self.failed = true;
                        return Err(CipherError::InvalidPadding);
                    },
                }
            } else {
                append(output, plain.as_slice());
                self.pos = self.pos + BLOCK_SIZE;
                assert(old(self).written() + output@ =~= self.written());
            }
        }
        if self.finished {
            Ok(BufferResult::BufferUnderflow)
        } else {
            Ok(BufferResult::BufferOverflow)
        }
    }

    /// A finished stream has written the plaintext without its valid padding,
    /// a failed one has found the padding malformed, and encrypting the
    /// plaintext of a finished stream, padding included, gives its input.
    pub proof fn lemma_written(&self)
        requires
            self.wf(),
        ensures
            self.key().len() == KEY_SIZE,
            self.iv().len() == BLOCK_SIZE,
            whole_blocks(self.input().len()),
            self.written().len() <= self.input().len(),
            !self.finished() ==> self.written().len() == self.consumed() && (self.consumed()
                < self.input().len() || self.input().len() == 0),
            self.failed() ==> !self.finished() && !valid_padding(
                cbc_decrypt(self.key(), self.iv(), self.input()),
            ),
            self.finished() || self.failed() ==> cbc_decrypt(
                self.key(),
                self.iv(),
                self.input(),
            ).len() == self.input().len(),
            self.finished() ==> {
                let padded = cbc_decrypt(self.key(), self.iv(), self.input());
                &&& valid_padding(padded)
                &&& padded.len() == self.input().len()
                &&& self.written() == pkcs7_unpad(padded).unwrap()
                &&& cbc_encrypt(self.key(), self.iv(), padded) == self.input()
            },
    {
        assert(self.input@.subrange(0, self.input@.len() as int) =~= self.input@);
    }
}

/// Appends the bytes of `source` to `target`.
pub fn append(target: &mut Vec<u8>, source: &[u8])
    ensures
        final(target)@ == old(target)@ + source@,
{
    let mut i: usize = 0;
    while i < source.len()
        invariant
            i <= source@.len(),
            target@ == old(target)@ + source@.subrange(0, i as int),
        decreases source@.len() - i,
    {
        target.push(source[i]);
        i += 1;
        assert(target@ =~= old(target)@ + source@.subrange(0, i as int));
    }
    assert(source@.subrange(0, source@.len() as int) =~= source@);
}

} // verus!
