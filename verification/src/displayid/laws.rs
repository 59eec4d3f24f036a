use vstd::prelude::*;

use super::parse::{
    displayid_block_end, displayid_parse_error, displayid_parsed_from, displayid_walk_blocks,
    displayid_walk_error,
};
use super::types::{DisplayIdDataBlock, DisplayIdDataBlockKind};

verus! {

/// DisplayID data blocks laid out as they are stored: for each, its tag, its revision, the
/// length of its payload, then the payload.
pub open spec fn displayid_blocks_layout(bs: Seq<DisplayIdDataBlock>) -> Seq<u8>
    decreases bs.len(),
{
    if bs.len() == 0 {
        seq![]
    } else {
        seq![bs[0].tag, bs[0].revision, bs[0].payload@.len() as u8] + bs[0].payload@
            + displayid_blocks_layout(bs.skip(1))
    }
}

/// Data blocks that hold the tags, revisions and payloads walked from `cursor` up to `end`
/// lay out as exactly the bytes walked.
proof fn lemma_walk_layout(block: Seq<u8>, cursor: int, end: int, ds: Seq<DisplayIdDataBlock>)
    requires
        block.len() == 128,
        6 <= cursor <= end <= 127,
        displayid_walk_error(block, cursor, end) is None,
        ds.len() == displayid_walk_blocks(block, cursor, end).len(),
        forall|i: int|
            0 <= i < ds.len() ==> {
                let w = displayid_walk_blocks(block, cursor, end)[i];
                &&& (#[trigger] ds[i]).tag == w.0
                &&& ds[i].revision == w.1
                &&& ds[i].payload@ == w.2
            },
    ensures
        displayid_blocks_layout(ds) == block.subrange(cursor, end),
    decreases end - cursor,
{
    let walk = displayid_walk_blocks(block, cursor, end);
    if cursor >= end {
        assert(block.subrange(cursor, end) =~= seq![]);
    } else {
        let next = displayid_block_end(block, cursor);
        let rest = displayid_walk_blocks(block, next, end);
        assert(walk == seq![(block[cursor], block[cursor + 1], block.subrange(cursor + 3, next))] + rest);
        let tail = ds.skip(1);
        assert forall|i: int| 0 <= i < tail.len() implies {
            let w = rest[i];
            &&& (#[trigger] tail[i]).tag == w.0
            &&& tail[i].revision == w.1
            &&& tail[i].payload@ == w.2
        } by {
            assert(tail[i] == ds[i + 1]);
            assert(walk[i + 1] == rest[i]);
        }
        lemma_walk_layout(block, next, end, tail);
        assert(walk[0] == (block[cursor], block[cursor + 1], block.subrange(cursor + 3, next)));
        assert(ds[0].payload@.len() == block[cursor + 2]);
        assert(seq![block[cursor], block[cursor + 1], block[cursor + 2]] + block.subrange(cursor + 3, next)
            + block.subrange(next, end) =~= block.subrange(cursor, end));
    }
}

/// What a DisplayID extension read from `block` holds: bytes 1 to 5 are its version,
/// revision, payload size, product type and extension count, and the 128 bytes are kept. Its
/// data blocks, each laid out as tag, revision, payload length and payload, fill the declared
/// payload area (bytes 6 up to `6 + block[3]`) exactly. A block with tag 0x20 is a product block and one with tag 0x7f a
/// vendor-specific block, each holding the data block's payload (the bytes after its
/// three-byte header); any other tag is of unknown kind.
pub proof fn law_displayid_data_blocks(block: Seq<u8>, d: super::types::DisplayIdExtension)
    requires
        displayid_parse_error(block) is None,
        displayid_parsed_from(d, block),
    ensures
        d.version == block[1],
        d.revision == block[2],
        d.payload_bytes == block[3],
        d.product_type == block[4],
        d.extension_count == block[5],
        d.raw_block@ == block,
        displayid_blocks_layout(d.data_blocks@) == block.subrange(6, 6 + block[3]),
        forall|i: int|
            0 <= i < d.data_blocks@.len() ==> {
                let b = #[trigger] d.data_blocks@[i];
                &&& (b.tag == 0x20 <==> b.kind is Product)
                &&& (b.tag == 0x7f <==> b.kind is VendorSpecific)
                &&& (b.kind matches DisplayIdDataBlockKind::Product(p) ==> p.payload@ == b.payload@)
                &&& (b.kind matches DisplayIdDataBlockKind::VendorSpecific(v) ==> v.payload@ == b.payload@)
            },
{
    let end = 6 + block[3];
    let walk = displayid_walk_blocks(block, 6, end);
    let ds = d.data_blocks@;
    assert forall|i: int| 0 <= i < ds.len() implies {
        let w = walk[i];
        &&& (#[trigger] ds[i]).tag == w.0
        &&& ds[i].revision == w.1
        &&& ds[i].payload@ == w.2
    } by {}
    lemma_walk_layout(block, 6, end, ds);
}

} // verus!
