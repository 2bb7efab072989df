//! PKCS#7 padding to whole cipher blocks: `n` bytes of value `n` are appended,
//! with `n` between 1 and the block size, so that padding is always present
//! and can always be told apart from the data.

use crate::block::{whole_blocks, BLOCK_SIZE};
use vstd::prelude::*;

verus! {

/// How many padding bytes follow `len` bytes of data: what is missing to the
/// next multiple of the block size, and a whole block where nothing is missing.
pub open spec fn pad_len(len: nat) -> nat {
    (BLOCK_SIZE - len % (BLOCK_SIZE as nat)) as nat
}

/// `data` followed by its padding.
pub open spec fn pkcs7_pad(data: Seq<u8>) -> Seq<u8> {
    data + Seq::new(pad_len(data.len()), |i: int| pad_len(data.len()) as u8)
}

/// Whether `padded` ends in well-formed padding: it consists of whole blocks,
/// at least one, its last byte `n` lies between 1 and the block size, and each
/// of its last `n` bytes is `n`.
pub open spec fn valid_padding(padded: Seq<u8>) -> bool {
    &&& padded.len() > 0
    &&& whole_blocks(padded.len())
    &&& 1 <= padded.last() <= BLOCK_SIZE
    &&& forall|i: int| padded.len() - padded.last() <= i < padded.len() ==> padded[i] == padded.last()
}

/// `padded` without its padding, or `None` where the padding is malformed.
pub open spec fn pkcs7_unpad(padded: Seq<u8>) -> Option<Seq<u8>> {
    if valid_padding(padded) {
        Some(padded.subrange(0, padded.len() - padded.last()))
    } else {
        None
    }
}

/// Padded data consists of whole blocks and is between one byte and one block
/// longer than the data.
pub proof fn lemma_pad_length(data: Seq<u8>)
    ensures
        1 <= pad_len(data.len()) <= BLOCK_SIZE,
        pkcs7_pad(data).len() == data.len() + pad_len(data.len()),
        whole_blocks(pkcs7_pad(data).len()),
        pkcs7_pad(data).len() > 0,
{
}

/// Removing the padding of padded data gives the data back.
pub proof fn lemma_unpad_pad(data: Seq<u8>)
    ensures
        valid_padding(pkcs7_pad(data)),
        pkcs7_unpad(pkcs7_pad(data)) == Some(data),
{
    let padded = pkcs7_pad(data);
    let n = pad_len(data.len());
    lemma_pad_length(data);
    assert(padded.last() == padded[padded.len() - 1]);
    assert(padded.last() == n as u8);
    assert(padded.subrange(0, padded.len() - padded.last()) =~= data);
}

/// Padding is the only way to a validly padded sequence: padding what is left
/// after its padding is removed gives the sequence back.
pub proof fn lemma_pad_unpad(padded: Seq<u8>)
    requires
        valid_padding(padded),
    ensures
        pkcs7_pad(pkcs7_unpad(padded).unwrap()) == padded,
{
    let data = pkcs7_unpad(padded).unwrap();
    assert(data.len() == padded.len() - padded.last());
    assert(pad_len(data.len()) == padded.last());
    assert(pkcs7_pad(data) =~= padded);
}

/// Two different inputs never have the same padded form.
pub proof fn lemma_pad_injective(a: Seq<u8>, b: Seq<u8>)
    requires
        pkcs7_pad(a) == pkcs7_pad(b),
    ensures
        a == b,
{
    lemma_unpad_pad(a);
    lemma_unpad_pad(b);
}

/// The padded form of `data` is its whole blocks up to `split`, followed by the
/// padded form of the rest.
pub proof fn lemma_pad_split(data: Seq<u8>, split: int)
    requires
        0 <= split <= data.len(),
        split % (BLOCK_SIZE as int) == 0,
    ensures
        pkcs7_pad(data) == data.subrange(0, split) + pkcs7_pad(data.subrange(split, data.len() as int)),
{
    let tail = data.subrange(split, data.len() as int);
    assert(pad_len(tail.len()) == pad_len(data.len()));
    assert(pkcs7_pad(data) =~= data.subrange(0, split) + pkcs7_pad(tail));
}

/// Whether a sequence of whole blocks is validly padded is decided by its last
/// block alone, and removing the padding shortens only that block.
pub proof fn lemma_unpad_last_block(padded: Seq<u8>)
    requires
        padded.len() >= BLOCK_SIZE,
        whole_blocks(padded.len()),
    ensures
        valid_padding(padded) == valid_padding(
            padded.subrange(padded.len() - BLOCK_SIZE, padded.len() as int),
        ),
        valid_padding(padded) ==> pkcs7_unpad(padded).unwrap() == padded.subrange(
            0,
            padded.len() - BLOCK_SIZE,
        ) + pkcs7_unpad(padded.subrange(padded.len() - BLOCK_SIZE, padded.len() as int)).unwrap(),
{
    let start = padded.len() - BLOCK_SIZE;
    let last = padded.subrange(start, padded.len() as int);
    assert(last.last() == padded.last());
    if valid_padding(padded) {
        assert forall|i: int| last.len() - last.last() <= i < last.len() implies last[i]
            == last.last() by {
            assert(last[i] == padded[start + i]);
        }
        assert(pkcs7_unpad(padded).unwrap() =~= padded.subrange(0, start) + pkcs7_unpad(
            last,
        ).unwrap());
    }
    if valid_padding(last) {
        assert forall|i: int| padded.len() - padded.last() <= i < padded.len() implies padded[i]
            == padded.last() by {
            assert(padded[i] == last[i - start]);
        }
    }
}

/// Pads the last, incomplete part of the data to one whole block.
pub fn pad_block(tail: &[u8]) -> (block: Vec<u8>)
    requires
        tail@.len() < BLOCK_SIZE,
    ensures
        block@ == pkcs7_pad(tail@),
        block@.len() == BLOCK_SIZE,
{
    let fill: u8 = (BLOCK_SIZE - tail.len()) as u8;
    let mut block: Vec<u8> = Vec::with_capacity(BLOCK_SIZE);
    let mut i: usize = 0;
    while i < BLOCK_SIZE
        invariant
            i <= BLOCK_SIZE,
            tail@.len() < BLOCK_SIZE,
            fill == BLOCK_SIZE - tail@.len(),
            block@.len() == i,
            forall|j: int| 0 <= j < i ==> block@[j] == (if j < tail@.len() { tail@[j] } else { fill }),
        decreases BLOCK_SIZE - i,
    {
        if i < tail.len() {
            block.push(tail[i]);
        } else {
            block.push(fill);
        }
        i += 1;
    }
    assert(block@ =~= pkcs7_pad(tail@));
    block
}

/// Checks the padding of a decrypted last block and says how many of its bytes
/// are data. Every byte of the block is looked at, whatever the outcome.
pub fn data_len(block: &[u8]) -> (len: Option<usize>)
    requires
        block@.len() == BLOCK_SIZE,
    ensures
        len is Some == valid_padding(block@),
        len matches Some(n) ==> n == BLOCK_SIZE - block@.last() && pkcs7_unpad(block@) == Some(
            block@.subrange(0, n as int),
        ),
{
    let fill: u8 = block[BLOCK_SIZE - 1];
    let in_range: bool = 1 <= fill && fill <= BLOCK_SIZE as u8;
    let start: usize = if in_range { BLOCK_SIZE - fill as usize } else { 0 };
    let mut uniform: bool = true;
    let mut i: usize = 0;
    while i < BLOCK_SIZE
        invariant
            i <= BLOCK_SIZE,
            block@.len() == BLOCK_SIZE,
            start <= BLOCK_SIZE,
            uniform == (forall|j: int| start <= j < i ==> block@[j] == fill),
        decreases BLOCK_SIZE - i,
    {
        if i >= start && block[i] != fill {
            uniform = false;
        }
        i += 1;
    }
    if in_range && uniform {
        Some(start)
    } else {
        None
    }
}

} // verus!
