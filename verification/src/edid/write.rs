use vstd::prelude::*;

use crate::base::{base_block_bytes, write_base_block};
use crate::cta861::{cta_block_bytes, write_cta861_extension};
use crate::displayid::write_displayid_extension;
use crate::utils::{sealed, sealed_copy};
use super::document::{Edid, ExtensionBlock};

verus! {

/// The bytes written for one extension block. A CTA-861 block is written from its typed data
/// when that data can be encoded, and otherwise from the bytes it was read from; DisplayID
/// and unknown blocks are written from the bytes they hold. The checksum of every 128-byte
/// block written from held bytes is recomputed.
pub open spec fn extension_bytes(x: ExtensionBlock) -> Seq<u8> {
    match x {
        ExtensionBlock::Cta861(c) => match cta_block_bytes(c) {
            Ok(bytes) => bytes,
            Err(_) => sealed(c.raw_block@),
        },
        ExtensionBlock::DisplayId(d) => sealed(d.raw_block@),
        ExtensionBlock::Unknown(bytes) => sealed(bytes@),
    }
}

/// The extension blocks written one after another.
pub open spec fn extensions_bytes(xs: Seq<ExtensionBlock>) -> Seq<u8>
    decreases xs.len(),
{
    if xs.len() == 0 {
        seq![]
    } else {
        extensions_bytes(xs.drop_last()) + extension_bytes(xs.last())
    }
}

/// The bytes [`write_edid`] writes for `e`: the base block, then the extension blocks.
pub open spec fn edid_bytes(e: Edid) -> Seq<u8> {
    base_block_bytes(e.base) + extensions_bytes(e.extensions@)
}

/// Appends `bytes` to `out`.
fn append_bytes(out: &mut Vec<u8>, bytes: &[u8])
    ensures
        final(out)@ == old(out)@ + bytes@,
{
    let ghost start = out@;
    let mut i: usize = 0;
    while i < bytes.len()
        invariant
            i <= bytes@.len(),
            out@ == start + bytes@.take(i as int),
        decreases bytes@.len() - i,
    {
        out.push(bytes[i]);
        i = i + 1;
        assert(out@ =~= start + bytes@.take(i as int));
    }
    assert(bytes@.take(i as int) =~= bytes@);
}

/// Writes the bytes of one extension block.
fn write_extension(x: &ExtensionBlock) -> (v: Vec<u8>)
    ensures
        v@ == extension_bytes(*x),
{
    match x {
        ExtensionBlock::Cta861(cta) => match write_cta861_extension(cta) {
            Ok(bytes) => bytes,
            Err(_) => sealed_copy(cta.raw_block.as_slice()),
        },
        ExtensionBlock::DisplayId(display_id) => match write_displayid_extension(display_id) {
            Ok(bytes) => bytes,
            Err(_) => sealed_copy(display_id.raw_block.as_slice()),
        },
        ExtensionBlock::Unknown(bytes) => sealed_copy(bytes.as_slice()),
    }
}

/// Writes an EDID: the base block from its typed fields, then each extension block.
pub fn write_edid(edid: &Edid) -> (r: Vec<u8>)
    ensures
        r@ == edid_bytes(*edid),
{
    let mut out: Vec<u8> = Vec::new();
    let base = write_base_block(&edid.base);
    append_bytes(&mut out, base.as_slice());
    let ghost base_seq = base@;
    let mut i: usize = 0;
    while i < edid.extensions.len()
        invariant
            i <= edid.extensions@.len(),
            base_block_bytes(edid.base) == base_seq,
            out@ == base_seq + extensions_bytes(edid.extensions@.take(i as int)),
        decreases edid.extensions@.len() - i,
    {
        assert(edid.extensions@.take(i + 1).drop_last() =~= edid.extensions@.take(i as int));
        assert(edid.extensions@.take(i + 1).last() == edid.extensions@[i as int]);
        let bytes = write_extension(&edid.extensions[i]);
        append_bytes(&mut out, bytes.as_slice());
        i = i + 1;
        assert(out@ =~= base_seq + extensions_bytes(edid.extensions@.take(i as int)));
    }
    assert(edid.extensions@.take(i as int) =~= edid.extensions@);
    out
}

} // verus!
