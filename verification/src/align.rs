//! Zero padding of byte buffers to a 16-byte boundary.

use vstd::prelude::*;

verus! {

/// The boundary, in bytes, that the parts of the object file are padded to.
pub const ALIGNMENT: usize = 16;

/// How many bytes must follow `len` bytes to reach the next multiple of 16.
pub open spec fn padding_len(len: nat) -> nat {
    ((16 - len % 16) % 16) as nat
}

/// `count` zero bytes.
pub open spec fn zeros(count: nat) -> Seq<u8> {
    Seq::new(count, |i: int| 0u8)
}

/// `bytes` followed by just enough zero bytes to reach a multiple of 16.
pub open spec fn padded(bytes: Seq<u8>) -> Seq<u8> {
    bytes + zeros(padding_len(bytes.len()))
}

/// Padding reaches a multiple of 16 with fewer than 16 bytes, all of them
/// zero and all of them behind the bytes that were there.
pub proof fn lemma_padded(bytes: Seq<u8>)
    ensures
        padded(bytes).len() % 16 == 0,
        bytes.len() <= padded(bytes).len() < bytes.len() + 16,
        padded(bytes).take(bytes.len() as int) == bytes,
        forall|i: int| bytes.len() <= i < padded(bytes).len() ==> padded(bytes)[i] == 0,
{
    assert(padded(bytes).take(bytes.len() as int) =~= bytes);
}

/// A buffer whose length is a multiple of 16 is its own padding.
pub proof fn lemma_padded_aligned(bytes: Seq<u8>)
    requires
        bytes.len() % 16 == 0,
    ensures
        padded(bytes) == bytes,
{
    assert(padded(bytes) =~= bytes);
}

/// Padding twice is padding once.
pub proof fn lemma_padded_idempotent(bytes: Seq<u8>)
    ensures
        padded(padded(bytes)) == padded(bytes),
{
    lemma_padded(bytes);
    lemma_padded_aligned(padded(bytes));
}

/// Appends zero bytes to `bytes` until its length is a multiple of 16.
pub fn pad16(bytes: &mut Vec<u8>)
    ensures
        final(bytes)@ == padded(old(bytes)@),
        final(bytes)@.len() % 16 == 0,
        old(bytes)@.len() % 16 == 0 ==> final(bytes)@ == old(bytes)@,
{
    let rest: usize = bytes.len() % 16;
    if rest != 0 {
        let missing: usize = 16 - rest;
        let mut added: usize = 0;
        while added < missing
            invariant
                added <= missing,
                bytes@ == old(bytes)@ + zeros(added as nat),
            decreases missing - added,
        {
            bytes.push(0x0);
            added += 1;
            assert(bytes@ =~= old(bytes)@ + zeros(added as nat));
        }
    } else {
        assert(bytes@ =~= padded(old(bytes)@));
    }
    proof {
        lemma_padded(old(bytes)@);
        if old(bytes)@.len() % 16 == 0 {
            lemma_padded_aligned(old(bytes)@);
        }
    }
}

} // verus!
