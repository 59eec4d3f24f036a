use vstd::prelude::*;
use vstd::string::StringExecFns;

use crate::error::{validation_error, EdidError, ErrorView};
use crate::utils::{checksum_byte, checksum_ok, decimal, fix_checksum, push_decimal};
use super::types::{Cta861Extension, DataBlock, VendorBlock};

verus! {

/// The short audio descriptors laid end to end.
pub open spec fn flatten_descriptors(s: Seq<[u8; 3]>) -> Seq<u8>
    decreases s.len(),
{
    if s.len() == 0 {
        seq![]
    } else {
        flatten_descriptors(s.drop_last()) + s.last()@
    }
}

/// One byte for a present optional value, none for an absent one.
pub open spec fn optional_byte(o: Option<u8>) -> Seq<u8> {
    match o {
        Some(v) => seq![v],
        None => seq![],
    }
}

/// The message for an unknown data block whose tag does not fit three bits.
pub open spec fn tag_out_of_range_message(tag: u8) -> Seq<char> {
    "CTA data block tag "@ + decimal(tag as nat) + " is out of range"@
}

/// The message for a data block payload longer than its 5-bit length field allows.
pub open spec fn payload_too_long_message(tag: u8) -> Seq<char> {
    "CTA data block payload exceeds 31-byte limit for tag "@ + decimal(tag as nat)
}

/// The tag and payload [`serialize_data_block`] writes for `d`, or the error it reports.
pub open spec fn data_block_encoding(d: DataBlock) -> Result<(u8, Seq<u8>), ErrorView> {
    match d {
        DataBlock::Video(v) => Ok((2u8, v.vic_codes@)),
        DataBlock::Audio(a) => Ok((1u8, flatten_descriptors(a.short_audio_descriptors@))),
        DataBlock::Vendor(v) => Ok((3u8, v.oui@ + v.payload@)),
        DataBlock::SpeakerAllocation(s) => Ok((4u8, s.bytes@)),
        DataBlock::HdrStaticMetadata(h) => Ok(
            (
                7u8,
                seq![0x06u8, h.electro_optical_transfer_functions, h.static_metadata_descriptors]
                    + optional_byte(h.desired_content_max_luminance) + optional_byte(
                    h.desired_content_max_frame_average_luminance,
                ) + optional_byte(h.desired_content_min_luminance),
            ),
        ),
        DataBlock::Extended(e) => Ok((7u8, seq![e.extended_tag] + e.payload@)),
        DataBlock::Unknown { tag, payload } => if tag <= 7 {
            Ok((tag, payload@))
        } else {
            Err(ErrorView::Validation(tag_out_of_range_message(tag)))
        },
    }
}

/// The OUI followed by the payload of a vendor-specific data block.
pub fn serialize_vendor_block(vendor: &VendorBlock) -> (r: Vec<u8>)
    ensures
        r@ == vendor.oui@ + vendor.payload@,
{
    let mut payload: Vec<u8> = Vec::new();
    payload.push(vendor.oui[0]);
    payload.push(vendor.oui[1]);
    payload.push(vendor.oui[2]);
    let mut i: usize = 0;
    while i < vendor.payload.len()
        invariant
            i <= vendor.payload@.len(),
            payload@ == vendor.oui@ + vendor.payload@.take(i as int),
        decreases vendor.payload@.len() - i,
    {
        payload.push(vendor.payload[i]);
        i = i + 1;
        assert(payload@ =~= vendor.oui@ + vendor.payload@.take(i as int));
    }
    assert(vendor.payload@.take(i as int) =~= vendor.payload@);
    payload
}

/// Appends `bytes` to `out`.
fn extend(out: &mut Vec<u8>, bytes: &[u8])
    ensures
        final(out)@ == old(out)@ + bytes@,
{
    let ghost start = out@;
    let mut i: usize = 0;
    while i < bytes.len()
        invariant
            i <= bytes@.len(),
            out@ == start + bytes@.take(i as int),
        decreases bytes@.len() - i,
    {
        out.push(bytes[i]);
        i = i + 1;
        assert(out@ =~= start + bytes@.take(i as int));
    }
    assert(bytes@.take(i as int) =~= bytes@);
}

/// `r` is the outcome `expected` describes for a tag and a payload.
pub open spec fn encoded_as(r: Result<(u8, Vec<u8>), EdidError>, expected: Result<(u8, Seq<u8>), ErrorView>) -> bool {
    match (r, expected) {
        (Ok((t, p)), Ok((et, ep))) => t == et && p@ == ep,
        (Err(e), Err(x)) => e@ == x,
        _ => false,
    }
}

/// The tag and payload of one data block.
pub fn serialize_data_block(block: &DataBlock) -> (r: Result<(u8, Vec<u8>), EdidError>)
    ensures
        encoded_as(r, data_block_encoding(*block)),
{
    match block {
        DataBlock::Video(video) => Ok((0x02, vstd::slice::slice_to_vec(video.vic_codes.as_slice()))),
        DataBlock::Audio(audio) => {
            let mut payload: Vec<u8> = Vec::new();
            let mut i: usize = 0;
            while i < audio.short_audio_descriptors.len()
                invariant
                    i <= audio.short_audio_descriptors@.len(),
                    payload@ == flatten_descriptors(audio.short_audio_descriptors@.take(i as int)),
                decreases audio.short_audio_descriptors@.len() - i,
            {
                let d = audio.short_audio_descriptors[i];
                payload.push(d[0]);
                payload.push(d[1]);
                payload.push(d[2]);
                assert(audio.short_audio_descriptors@.take(i + 1).drop_last()
                    =~= audio.short_audio_descriptors@.take(i as int));
                i = i + 1;
                assert(payload@ =~= flatten_descriptors(audio.short_audio_descriptors@.take(i as int)));
            }
            assert(audio.short_audio_descriptors@.take(i as int) =~= audio.short_audio_descriptors@);
            Ok((0x01, payload))
        },
        DataBlock::Vendor(vendor) => Ok((0x03, serialize_vendor_block(vendor))),
        DataBlock::SpeakerAllocation(speakers) => Ok(
            (0x04, vstd::slice::slice_to_vec(speakers.bytes.as_slice())),
        ),
        DataBlock::HdrStaticMetadata(hdr) => {
            let mut payload: Vec<u8> = Vec::new();
            payload.push(0x06);
            payload.push(hdr.electro_optical_transfer_functions);
            payload.push(hdr.static_metadata_descriptors);
            if let Some(value) = hdr.desired_content_max_luminance {
                payload.push(value);
            }
            if let Some(value) = hdr.desired_content_max_frame_average_luminance {
                payload.push(value);
            }
            if let Some(value) = hdr.desired_content_min_luminance {
                payload.push(value);
            }
            assert(payload@ =~= seq![0x06u8, hdr.electro_optical_transfer_functions, hdr.static_metadata_descriptors]
                + optional_byte(hdr.desired_content_max_luminance) + optional_byte(
                hdr.desired_content_max_frame_average_luminance,
            ) + optional_byte(hdr.desired_content_min_luminance));
            Ok((0x07, payload))
        },
        DataBlock::Extended(extended) => {
            let mut payload: Vec<u8> = Vec::new();
            payload.push(extended.extended_tag);
            extend(&mut payload, extended.payload.as_slice());
            assert(payload@ =~= seq![extended.extended_tag] + extended.payload@);
            Ok((0x07, payload))
        },
        DataBlock::Unknown { tag, payload } => {
            if *tag <= 0x07 {
                Ok((*tag, vstd::slice::slice_to_vec(payload.as_slice())))
            } else {
                let mut message = "CTA data block tag ".to_owned();
                push_decimal(&mut message, *tag as usize);
                message.append(" is out of range");
                Err(EdidError::ValidationError(message))
            }
        },
    }
}

/// The bytes of the data block collection, each block a header byte (tag in the top three
/// bits, payload length in the low five) followed by its payload; or the first error met.
pub open spec fn blocks_encoding(blocks: Seq<DataBlock>) -> Result<Seq<u8>, ErrorView>
    decreases blocks.len(),
{
    if blocks.len() == 0 {
        Ok(seq![])
    } else {
        match blocks_encoding(blocks.drop_last()) {
            Err(e) => Err(e),
            Ok(prefix) => match data_block_encoding(blocks.last()) {
                Err(e) => Err(e),
                Ok((tag, payload)) => if payload.len() > 31 {
                    Err(ErrorView::Validation(payload_too_long_message(tag)))
                } else {
                    Ok(prefix + seq![(tag * 32 + payload.len()) as u8] + payload)
                },
            },
        }
    }
}

/// `r` is the outcome `expected` describes for a byte vector.
pub open spec fn bytes_written_as(r: Result<Vec<u8>, EdidError>, expected: Result<Seq<u8>, ErrorView>) -> bool {
    match (r, expected) {
        (Ok(v), Ok(s)) => v@ == s,
        (Err(e), Err(x)) => e@ == x,
        _ => false,
    }
}

/// Serializes the data block collection.
pub fn serialize_data_blocks(blocks: &[DataBlock]) -> (r: Result<Vec<u8>, EdidError>)
    ensures
        bytes_written_as(r, blocks_encoding(blocks@)),
{
    let mut out: Vec<u8> = Vec::new();
    let mut i: usize = 0;
    while i < blocks.len()
        invariant
            i <= blocks@.len(),
            blocks_encoding(blocks@.take(i as int)) == Ok::<Seq<u8>, ErrorView>(out@),
        decreases blocks@.len() - i,
    {
        assert(blocks@.take(i + 1).drop_last() =~= blocks@.take(i as int));
        assert(blocks@.take(i + 1).last() == blocks@[i as int]);
        let ghost prefix = out@;
        let (tag, payload) = match serialize_data_block(&blocks[i]) {
            Ok(encoded) => encoded,
            Err(e) => {
                proof {
                    lemma_blocks_encoding_error_persists(blocks@, i as int + 1);
                }
                return Err(e);
            },
        };
        if payload.len() > 0x1f {
            let mut message = "CTA data block payload exceeds 31-byte limit for tag ".to_owned();
            push_decimal(&mut message, tag as usize);
            proof {
                lemma_blocks_encoding_error_persists(blocks@, i as int + 1);
            }
            return Err(EdidError::ValidationError(message));
        }
        proof {
            assert(tag <= 7) by {
                lemma_encoding_tag_fits(blocks@[i as int]);
            }
        }
        out.push(tag * 32 + payload.len() as u8);
        extend(&mut out, payload.as_slice());
        assert(out@ =~= prefix + seq![(tag * 32 + payload@.len()) as u8] + payload@);
        i = i + 1;
    }
    assert(blocks@.take(i as int) =~= blocks@);
    Ok(out)
}

/// Every encoded data block has a tag of at most three bits.
pub proof fn lemma_encoding_tag_fits(d: DataBlock)
    ensures
        data_block_encoding(d) matches Ok((tag, _)) ==> tag <= 7,
{
}

/// Once a prefix of the collection fails to encode, the whole collection fails the same way.
pub proof fn lemma_blocks_encoding_error_persists(blocks: Seq<DataBlock>, n: int)
    requires
        0 <= n <= blocks.len(),
        blocks_encoding(blocks.take(n)) is Err,
    ensures
        blocks_encoding(blocks) == blocks_encoding(blocks.take(n)),
    decreases blocks.len() - n,
{
    if n < blocks.len() {
        assert(blocks.take(n + 1).drop_last() =~= blocks.take(n));
        lemma_blocks_encoding_error_persists(blocks, n + 1);
    } else {
        assert(blocks.take(n) =~= blocks);
    }
}

} // verus!

verus! {

/// The old detailed timing offset, kept within 4..=127.
pub open spec fn clamped_offset(offset: u8) -> int {
    if offset < 4 {
        4
    } else if offset > 127 {
        127
    } else {
        offset as int
    }
}

/// How many bytes after the old detailed timing offset are carried over: those up to byte
/// 127 of the old block, as far as they fit after the new data blocks.
pub open spec fn trailing_len(c: Cta861Extension, data_len: int) -> int {
    if c.raw_block@.len() == 128 {
        let old_tail = 127 - clamped_offset(c.detailed_timing_offset);
        let room = 127 - (4 + data_len);
        if old_tail < room {
            old_tail
        } else {
            room
        }
    } else {
        0
    }
}

/// Byte `i` of the extension block written for `c` with serialized data blocks `data`,
/// before its checksum is fixed.
pub open spec fn cta_body_byte(c: Cta861Extension, data: Seq<u8>, i: int) -> u8 {
    let raw = c.raw_block@;
    let new_offset = 4 + data.len();
    let tail = trailing_len(c, data.len() as int);
    if i == 0 {
        0x02
    } else if i == 1 {
        c.revision
    } else if i == 2 {
        new_offset as u8
    } else if i == 3 {
        c.flags
    } else if i < new_offset {
        data[i - 4]
    } else if i < new_offset + tail {
        raw[clamped_offset(c.detailed_timing_offset) + (i - new_offset)]
    } else if i < 127 {
        0
    } else if raw.len() == 128 {
        raw[127]
    } else {
        0
    }
}

/// The extension block written for `c`, before its checksum is fixed.
pub open spec fn cta_body(c: Cta861Extension, data: Seq<u8>) -> Seq<u8> {
    Seq::new(128, |i: int| cta_body_byte(c, data, i))
}

/// The 128 bytes [`write_cta861_extension`] writes for `c`, or the error it reports.
pub open spec fn cta_block_bytes(c: Cta861Extension) -> Result<Seq<u8>, ErrorView> {
    match blocks_encoding(c.data_blocks@) {
        Err(e) => Err(e),
        Ok(data) => if data.len() > 123 {
            Err(ErrorView::Validation("CTA-861 data blocks exceed 123-byte payload budget"@))
        } else {
            Ok(cta_body(c, data).update(127, checksum_byte(cta_body(c, data))))
        },
    }
}

/// Writes a CTA-861 extension block from its typed data blocks: the header, the encoded data
/// blocks, then the old bytes from the detailed timing offset on as far as they fit, zeros up
/// to the checksum, and a fresh checksum.
pub fn write_cta861_extension(cta: &Cta861Extension) -> (r: Result<Vec<u8>, EdidError>)
    ensures
        bytes_written_as(r, cta_block_bytes(*cta)),
        r matches Ok(v) ==> v@.len() == 128 && checksum_ok(v@),
{
    let data = serialize_data_blocks(cta.data_blocks.as_slice())?;
    if data.len() > 123 {
        return Err(validation_error("CTA-861 data blocks exceed 123-byte payload budget"));
    }
    let ghost body = cta_body(*cta, data@);
    let dto = cta.detailed_timing_offset as usize;
    let old_offset: usize = if dto < 4 {
        4
    } else if dto > 127 {
        127
    } else {
        dto
    };
    let has_raw = cta.raw_block.len() == 128;
    let new_offset = 4 + data.len();
    let available = 127 - new_offset;
    let tail: usize = if has_raw {
        if 127 - old_offset < available {
            127 - old_offset
        } else {
            available
        }
    } else {
        0
    };
    assert(tail == trailing_len(*cta, data@.len() as int));

    let mut block: Vec<u8> = Vec::new();
    let mut i: usize = 0;
    while i < 128
        invariant
            i <= 128,
            has_raw == (cta.raw_block@.len() == 128),
            block@.len() == i,
            forall|j: int| 0 <= j < i ==> #[trigger] block@[j] == (if has_raw { cta.raw_block@[j] } else { 0u8 }),
        decreases 128 - i,
    {
        if has_raw {
            block.push(cta.raw_block[i]);
        } else {
            block.push(0);
        }
        i = i + 1;
    }
    block[0] = 0x02;
    block[1] = cta.revision;
    block[2] = new_offset as u8;
    block[3] = cta.flags;
    let mut k: usize = 0;
    while k < data.len()
        invariant
            k <= data@.len(),
            new_offset == 4 + data@.len() <= 127,
            block@.len() == 128,
            body == cta_body(*cta, data@),
            forall|j: int| 0 <= j < 4 + k ==> #[trigger] block@[j] == body[j],
            forall|j: int| 4 + k <= j < 128 ==> #[trigger] block@[j] == (if has_raw { cta.raw_block@[j] } else { 0u8 }),
            has_raw == (cta.raw_block@.len() == 128),
        decreases data@.len() - k,
    {
        block[4 + k] = data[k];
        k = k + 1;
    }
    let mut t: usize = 0;
    while t < tail
        invariant
            t <= tail,
            tail == trailing_len(*cta, data@.len() as int),
            new_offset == 4 + data@.len() <= 127,
            new_offset + tail <= 127,
            old_offset == clamped_offset(cta.detailed_timing_offset),
            has_raw == (cta.raw_block@.len() == 128),
            has_raw || tail == 0,
            old_offset + tail <= 127,
            block@.len() == 128,
            body == cta_body(*cta, data@),
            forall|j: int| 0 <= j < new_offset + t ==> #[trigger] block@[j] == body[j],
            forall|j: int| new_offset + t <= j < 128 ==> #[trigger] block@[j] == (if has_raw { cta.raw_block@[j] } else { 0u8 }),
        decreases tail - t,
    {
        block[new_offset + t] = cta.raw_block[old_offset + t];
        t = t + 1;
    }
    let mut z: usize = new_offset + tail;
    while z < 127
        invariant
            new_offset + tail <= z <= 127,
            tail == trailing_len(*cta, data@.len() as int),
            new_offset == 4 + data@.len(),
            has_raw == (cta.raw_block@.len() == 128),
            block@.len() == 128,
            body == cta_body(*cta, data@),
            forall|j: int| 0 <= j < z ==> #[trigger] block@[j] == body[j],
            forall|j: int| z <= j < 128 ==> #[trigger] block@[j] == (if has_raw { cta.raw_block@[j] } else { 0u8 }),
        decreases 127 - z,
    {
        block[z] = 0;
        z = z + 1;
    }
    assert(block@ =~= body);
    fix_checksum(block.as_mut_slice());
    assert(block@.take(128) =~= block@);
    Ok(block)
}

} // verus!
