use vstd::prelude::*;

use crate::error::{fails_as, EdidError, ErrorView};

verus! {

/// The running byte sum of `s`, modulo 256, as EDID checksums define it.
pub open spec fn byte_sum(s: Seq<u8>) -> u8
    decreases s.len(),
{
    if s.len() == 0 {
        0
    } else {
        ((byte_sum(s.drop_last()) + s.last()) % 256) as u8
    }
}

/// A block is sound when all its bytes add up to zero modulo 256.
pub open spec fn checksum_ok(s: Seq<u8>) -> bool {
    byte_sum(s) == 0
}

/// The byte that makes the first 127 bytes of `s` plus itself sum to zero.
pub open spec fn checksum_byte(s: Seq<u8>) -> u8 {
    ((256 - byte_sum(s.take(127)) as int) % 256) as u8
}

/// What [`validate_checksum`] reports for `block`, if anything.
pub open spec fn checksum_error(block: Seq<u8>, block_index: int) -> Option<ErrorView> {
    if block.len() != 128 {
        Some(ErrorView::InvalidLength)
    } else if !checksum_ok(block) {
        Some(ErrorView::InvalidChecksum { block_index })
    } else {
        None
    }
}

/// Sums the first `n` bytes of `block` modulo 256.
pub fn sum_prefix(block: &[u8], n: usize) -> (sum: u8)
    requires
        n <= block@.len(),
    ensures
        sum == byte_sum(block@.take(n as int)),
{
    let mut acc: u8 = 0;
    let mut i: usize = 0;
    while i < n
        invariant
            i <= n <= block@.len(),
            acc == byte_sum(block@.take(i as int)),
        decreases n - i,
    {
        assert(block@.take(i + 1).drop_last() =~= block@.take(i as int));
        acc = acc.wrapping_add(block[i]);
        i = i + 1;
    }
    acc
}

/// Checks that `block` is 128 bytes long and that its byte sum is zero; a bad sum is
/// reported with `block_index`.
pub fn validate_checksum(block: &[u8], block_index: usize) -> (r: Result<(), EdidError>)
    ensures
        fails_as(r, checksum_error(block@, block_index as int)),
{
    if block.len() != 128 {
        return Err(EdidError::InvalidLength);
    }
    let sum = sum_prefix(block, 128);
    assert(block@.take(128) =~= block@);
    if sum != 0 {
        return Err(EdidError::InvalidChecksum { block_index });
    }
    Ok(())
}

/// Sets byte 127 of `block` so that the byte sum of its first 128 bytes is zero.
pub fn fix_checksum(block: &mut [u8])
    requires
        old(block)@.len() >= 128,
    ensures
        final(block)@ == old(block)@.update(127, checksum_byte(old(block)@)),
        checksum_ok(final(block)@.take(128)),
{
    let sum = sum_prefix(block, 127);
    block[127] = (0u8).wrapping_sub(sum);
    assert(block@.take(128).drop_last() =~= old(block)@.take(127));
}

/// Fixing the checksum touches only byte 127, and the result depends only on the other 127.
pub proof fn lemma_checksum_byte_ignores_last(a: Seq<u8>, b: Seq<u8>)
    requires
        a.len() >= 128,
        b.len() >= 128,
        a.take(127) == b.take(127),
    ensures
        checksum_byte(a) == checksum_byte(b),
{
}

/// Setting byte 127 to the checksum byte makes the 128-byte block sum to zero.
pub proof fn lemma_checksum_byte_fixes(s: Seq<u8>)
    requires
        s.len() == 128,
    ensures
        checksum_ok(s.update(127, checksum_byte(s))),
{
    assert(s.update(127, checksum_byte(s)).drop_last() =~= s.take(127));
}

/// A block whose sum is already zero keeps its last byte when its checksum is fixed.
pub proof fn lemma_checksum_byte_of_valid_block(s: Seq<u8>)
    requires
        s.len() == 128,
        checksum_ok(s),
    ensures
        checksum_byte(s) == s[127],
{
    assert(s.drop_last() =~= s.take(127));
}

/// `s` with its checksum byte recomputed when it is a 128-byte block, unchanged otherwise.
pub open spec fn sealed(s: Seq<u8>) -> Seq<u8> {
    if s.len() == 128 {
        s.update(127, checksum_byte(s))
    } else {
        s
    }
}

/// A copy of `bytes`, with the checksum byte recomputed when they form a 128-byte block.
pub fn sealed_copy(bytes: &[u8]) -> (v: Vec<u8>)
    ensures
        v@ == sealed(bytes@),
{
    let mut v = vstd::slice::slice_to_vec(bytes);
    if v.len() == 128 {
        fix_checksum(v.as_mut_slice());
    }
    v
}

/// A sealed 128-byte block has a sound checksum, and a block whose checksum is already sound
/// is sealed as itself.
pub proof fn lemma_sealed(s: Seq<u8>)
    requires
        s.len() == 128,
    ensures
        sealed(s).len() == 128,
        checksum_ok(sealed(s)),
        checksum_ok(s) ==> sealed(s) == s,
{
    lemma_checksum_byte_fixes(s);
    if checksum_ok(s) {
        lemma_checksum_byte_of_valid_block(s);
        assert(s.update(127, s[127]) =~= s);
    }
}

} // verus!
