use vstd::prelude::*;

use crate::error::EdidError;
use crate::utils::{sealed, sealed_copy};
use super::types::DisplayIdExtension;

verus! {

/// Writes a DisplayID extension back from the bytes it was read from, with its checksum
/// recomputed.
pub fn write_displayid_extension(display_id: &DisplayIdExtension) -> (r: Result<Vec<u8>, EdidError>)
    ensures
        r matches Ok(v) && v@ == sealed(display_id.raw_block@),
{
    Ok(sealed_copy(display_id.raw_block.as_slice()))
}

} // verus!
