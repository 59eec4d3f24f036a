use vstd::prelude::*;

use crate::base::{base_parse_error, base_parsed_from, parse_base_block};
use crate::cta861::{cta_parse_error, cta_parsed_from, parse_cta861_extension};
use crate::displayid::{displayid_parse_error, displayid_parsed_from, parse_displayid_extension};
use crate::error::{fails_as, EdidError, ErrorView};
use crate::utils::{checksum_ok, header_ok, validate_checksum, validate_header};
use super::document::{Edid, ExtensionBlock};

verus! {

/// The 128-byte block number `k` of `data` (block 0 is the base block).
pub open spec fn block_of(data: Seq<u8>, k: int) -> Seq<u8> {
    data.subrange(128 * k, 128 * k + 128)
}

/// How many extension blocks `data` carries after its base block.
pub open spec fn extension_blocks(data: Seq<u8>) -> int {
    data.len() / 128 - 1
}

/// What reading the 128-byte extension block `block` at position `index` reports, if
/// anything.
pub open spec fn extension_parse_error(block: Seq<u8>, index: int) -> Option<ErrorView> {
    if !checksum_ok(block) {
        Some(ErrorView::InvalidChecksum { block_index: index })
    } else if block[0] == 0x02 {
        cta_parse_error(block)
    } else if block[0] == 0x70 {
        displayid_parse_error(block)
    } else {
        None
    }
}

/// The first error among the extension blocks from number `k` (counted from 0) to `n`.
pub open spec fn extensions_error_from(data: Seq<u8>, k: int, n: int) -> Option<ErrorView>
    decreases n - k,
{
    if k < 0 || k >= n {
        None
    } else {
        match extension_parse_error(block_of(data, k + 1), k + 1) {
            Some(e) => Some(e),
            None => extensions_error_from(data, k + 1, n),
        }
    }
}

/// What [`parse_edid`] reports for `data`, if anything.
pub open spec fn edid_parse_error(data: Seq<u8>) -> Option<ErrorView> {
    if data.len() < 128 || data.len() % 128 != 0 {
        Some(ErrorView::InvalidLength)
    } else if !header_ok(data) {
        Some(ErrorView::InvalidHeader)
    } else if base_parse_error(data.take(128)) is Some {
        base_parse_error(data.take(128))
    } else if data[126] != extension_blocks(data) {
        Some(
            ErrorView::ExtensionCountMismatch {
                expected: data[126] as int,
                actual: extension_blocks(data),
            },
        )
    } else {
        extensions_error_from(data, 0, extension_blocks(data))
    }
}

/// `x` is what [`parse_edid`] makes of the 128-byte extension block `block`: CTA-861 for
/// tag 0x02, DisplayID for tag 0x70, the bytes themselves otherwise.
pub open spec fn extension_parsed_from(x: ExtensionBlock, block: Seq<u8>) -> bool {
    if block[0] == 0x02 {
        x matches ExtensionBlock::Cta861(c) && cta_parsed_from(c, block)
    } else if block[0] == 0x70 {
        x matches ExtensionBlock::DisplayId(d) && displayid_parsed_from(d, block)
    } else {
        x matches ExtensionBlock::Unknown(v) && v@ == block
    }
}

/// `e` is what [`parse_edid`] makes of `data`.
pub open spec fn edid_parsed_from(e: Edid, data: Seq<u8>) -> bool {
    &&& e.raw@ == data
    &&& base_parsed_from(e.base, data.take(128))
    &&& e.extensions@.len() == extension_blocks(data)
    &&& forall|k: int|
        0 <= k < e.extensions@.len() ==> extension_parsed_from(
            #[trigger] e.extensions@[k],
            block_of(data, k + 1),
        )
}

/// Reads a complete EDID: the base block, then each extension block in turn.
pub fn parse_edid(data: &[u8]) -> (r: Result<Edid, EdidError>)
    ensures
        fails_as(r, edid_parse_error(data@)),
        r matches Ok(e) ==> edid_parsed_from(e, data@),
{
    let len = data.len();
    if len < 128 || len % 128 != 0 {
        return Err(EdidError::InvalidLength);
    }
    validate_header(data)?;
    let actual_extensions = len / 128 - 1;
    let base_bytes = vstd::slice::slice_subrange(data, 0, 128);
    assert(base_bytes@ =~= data@.take(128));
    let base = parse_base_block(base_bytes)?;
    if base.extension_count as usize != actual_extensions {
        return Err(
            EdidError::ExtensionCountMismatch {
                expected: base.extension_count as usize,
                actual: actual_extensions,
            },
        );
    }
    let mut extensions: Vec<ExtensionBlock> = Vec::new();
    let mut index: usize = 0;
    while index < actual_extensions
        invariant
            index <= actual_extensions == extension_blocks(data@),
            len == data@.len(),
            len % 128 == 0,
            edid_parse_error(data@) == extensions_error_from(data@, index as int, actual_extensions as int),
            extensions@.len() == index,
            forall|k: int|
                0 <= k < index ==> extension_parsed_from(
                    #[trigger] extensions@[k],
                    block_of(data@, k + 1),
                ),
        decreases actual_extensions - index,
    {
        assert(128 * (index + 2) <= len) by (nonlinear_arith)
            requires
                index < actual_extensions,
                actual_extensions == len / 128 - 1,
                len % 128 == 0,
        ;
        let block = vstd::slice::slice_subrange(data, 128 * (index + 1), 128 * (index + 2));
        assert(block@ =~= block_of(data@, index + 1));
        validate_checksum(block, index + 1)?;
        let extension = if block[0] == 0x02 {
            ExtensionBlock::Cta861(parse_cta861_extension(block)?)
        } else if block[0] == 0x70 {
            ExtensionBlock::DisplayId(parse_displayid_extension(block)?)
        } else {
            ExtensionBlock::Unknown(vstd::slice::slice_to_vec(block))
        };
        extensions.push(extension);
        index = index + 1;
    }
    Ok(Edid { raw: vstd::slice::slice_to_vec(data), base, extensions })
}

} // verus!
