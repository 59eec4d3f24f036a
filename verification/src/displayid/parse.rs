use vstd::prelude::*;

use crate::error::{fails_as, parse_error, EdidError, ErrorView};
use super::types::{
    DisplayIdDataBlock, DisplayIdDataBlockKind, DisplayIdExtension, DisplayIdProductDataBlock,
    DisplayIdVendorSpecificDataBlock,
};

verus! {

/// `k` is the kind of a DisplayID data block with `tag` and `payload`: product data for tag
/// 0x20, vendor-specific data for tag 0x7f, unknown otherwise.
pub open spec fn kind_parsed_from(k: DisplayIdDataBlockKind, tag: u8, payload: Seq<u8>) -> bool {
    if tag == 0x20 {
        k matches DisplayIdDataBlockKind::Product(p) && p.payload@ == payload
    } else if tag == 0x7f {
        k matches DisplayIdDataBlockKind::VendorSpecific(v) && v.payload@ == payload
    } else {
        k is Unknown
    }
}

/// Classifies a DisplayID data block by its tag.
pub fn parse_displayid_data_block_kind(tag: u8, payload: &[u8]) -> (k: DisplayIdDataBlockKind)
    ensures
        kind_parsed_from(k, tag, payload@),
{
    if tag == 0x20 {
        DisplayIdDataBlockKind::Product(
            DisplayIdProductDataBlock { payload: vstd::slice::slice_to_vec(payload) },
        )
    } else if tag == 0x7f {
        DisplayIdDataBlockKind::VendorSpecific(
            DisplayIdVendorSpecificDataBlock { payload: vstd::slice::slice_to_vec(payload) },
        )
    } else {
        DisplayIdDataBlockKind::Unknown
    }
}

/// Where the data block whose three header bytes start at `cursor` ends.
pub open spec fn displayid_block_end(block: Seq<u8>, cursor: int) -> int {
    cursor + 3 + block[cursor + 2]
}

/// The first error met walking DisplayID data blocks from `cursor` up to `end`.
pub open spec fn displayid_walk_error(block: Seq<u8>, cursor: int, end: int) -> Option<ErrorView>
    decreases end - cursor,
{
    if cursor >= end {
        None
    } else if end - cursor < 3 {
        Some(ErrorView::Parse("truncated DisplayID data block header"@))
    } else if displayid_block_end(block, cursor) > end {
        Some(ErrorView::Parse("DisplayID data block exceeds declared payload size"@))
    } else {
        displayid_walk_error(block, displayid_block_end(block, cursor), end)
    }
}

/// The tag, revision and payload of the DisplayID data blocks from `cursor` up to `end`.
pub open spec fn displayid_walk_blocks(block: Seq<u8>, cursor: int, end: int) -> Seq<(u8, u8, Seq<u8>)>
    decreases end - cursor,
{
    if cursor >= end || end - cursor < 3 || displayid_block_end(block, cursor) > end {
        seq![]
    } else {
        seq![
            (
                block[cursor],
                block[cursor + 1],
                block.subrange(cursor + 3, displayid_block_end(block, cursor)),
            ),
        ] + displayid_walk_blocks(block, displayid_block_end(block, cursor), end)
    }
}

/// What [`parse_displayid_extension`] reports for `block`, if anything.
pub open spec fn displayid_parse_error(block: Seq<u8>) -> Option<ErrorView> {
    if block.len() != 128 {
        Some(ErrorView::InvalidLength)
    } else if 6 + block[3] > 127 {
        Some(ErrorView::Parse("DisplayID payload exceeds extension boundary"@))
    } else {
        displayid_walk_error(block, 6, 6 + block[3])
    }
}

/// `d` is what [`parse_displayid_extension`] makes of the 128 bytes `block`.
pub open spec fn displayid_parsed_from(d: DisplayIdExtension, block: Seq<u8>) -> bool {
    let blocks = displayid_walk_blocks(block, 6, 6 + block[3]);
    &&& d.version == block[1]
    &&& d.revision == block[2]
    &&& d.payload_bytes == block[3]
    &&& d.product_type == block[4]
    &&& d.extension_count == block[5]
    &&& d.raw_block@ == block
    &&& d.data_blocks@.len() == blocks.len()
    &&& forall|i: int|
        0 <= i < blocks.len() ==> {
            let b = #[trigger] d.data_blocks@[i];
            &&& b.tag == blocks[i].0
            &&& b.revision == blocks[i].1
            &&& b.payload@ == blocks[i].2
            &&& kind_parsed_from(b.kind, b.tag, blocks[i].2)
        }
}

/// Reads a DisplayID extension block into typed data block envelopes.
pub fn parse_displayid_extension(block: &[u8]) -> (r: Result<DisplayIdExtension, EdidError>)
    ensures
        fails_as(r, displayid_parse_error(block@)),
        r matches Ok(d) ==> displayid_parsed_from(d, block@),
{
    if block.len() != 128 {
        return Err(EdidError::InvalidLength);
    }
    let payload_bytes = block[3] as usize;
    let payload_end = 6 + payload_bytes;
    if payload_end > 127 {
        return Err(parse_error("DisplayID payload exceeds extension boundary"));
    }
    let ghost b = block@;
    let ghost end = payload_end as int;
    let mut data_blocks: Vec<DisplayIdDataBlock> = Vec::new();
    let ghost mut done: Seq<(u8, u8, Seq<u8>)> = seq![];
    let mut cursor: usize = 6;
    while cursor < payload_end
        invariant
            b == block@,
            b.len() == 128,
            end == payload_end == 6 + b[3],
            6 <= cursor <= payload_end <= 127,
            displayid_walk_error(b, 6, end) == displayid_walk_error(b, cursor as int, end),
            displayid_walk_blocks(b, 6, end) == done + displayid_walk_blocks(b, cursor as int, end),
            data_blocks@.len() == done.len(),
            forall|i: int|
                0 <= i < done.len() ==> {
                    let d = #[trigger] data_blocks@[i];
                    &&& d.tag == done[i].0
                    &&& d.revision == done[i].1
                    &&& d.payload@ == done[i].2
                    &&& kind_parsed_from(d.kind, d.tag, done[i].2)
                },
        decreases payload_end - cursor,
    {
        if payload_end - cursor < 3 {
            return Err(parse_error("truncated DisplayID data block header"));
        }
        let tag = block[cursor];
        let revision = block[cursor + 1];
        let payload_len = block[cursor + 2] as usize;
        let start = cursor + 3;
        let data_end = start + payload_len;
        if data_end > payload_end {
            return Err(parse_error("DisplayID data block exceeds declared payload size"));
        }
        let payload = vstd::slice::slice_subrange(block, start, data_end);
        let kind = parse_displayid_data_block_kind(tag, payload);
        proof {
            let entry = (tag, revision, payload@);
            assert(displayid_walk_blocks(b, cursor as int, end) == seq![entry]
                + displayid_walk_blocks(b, data_end as int, end));
            assert(done + displayid_walk_blocks(b, cursor as int, end) =~= done.push(entry)
                + displayid_walk_blocks(b, data_end as int, end));
            done = done.push(entry);
        }
        data_blocks.push(
            DisplayIdDataBlock {
                tag,
                revision,
                payload: vstd::slice::slice_to_vec(payload),
                kind,
            },
        );
        cursor = data_end;
    }
    assert(done + displayid_walk_blocks(b, cursor as int, end) =~= done);
    Ok(
        DisplayIdExtension {
            version: block[1],
            revision: block[2],
            payload_bytes: block[3],
            product_type: block[4],
            extension_count: block[5],
            data_blocks,
            raw_block: vstd::slice::slice_to_vec(block),
        },
    )
}

} // verus!
