use vstd::prelude::*;

use crate::base::bit_set;
use crate::error::{fails_as, parse_error, EdidError, ErrorView};
use crate::utils::{decimal, push_decimal};
use super::types::{
    AudioBlock, Cta861Extension, DataBlock, ExtendedTagBlock, HdmiVendorBlock,
    HdrStaticMetadataBlock, SpeakerAllocationBlock, VendorBlock, VideoBlock,
};

verus! {

/// The IEEE OUI of HDMI Licensing, as stored in a vendor-specific data block.
pub open spec fn hdmi_oui() -> Seq<u8> {
    seq![0x03u8, 0x0c, 0x00]
}

/// The byte at `i` if `p` has one.
pub open spec fn byte_at(p: Seq<u8>, i: int) -> Option<u8> {
    if 0 <= i < p.len() {
        Some(p[i])
    } else {
        None
    }
}

/// The byte at `i`, or 0 where `p` is shorter.
pub open spec fn byte_or_zero(p: Seq<u8>, i: int) -> u8 {
    if 0 <= i < p.len() {
        p[i]
    } else {
        0
    }
}

/// The optional latency bytes that follow byte 5 of an HDMI payload, in order: video, audio,
/// interlaced video, interlaced audio. Each is read from the next unread byte when its
/// group is present and the payload still has a byte.
pub open spec fn hdmi_latencies(p: Seq<u8>, latency: bool, interlaced: bool) -> (
    Option<u8>,
    Option<u8>,
    Option<u8>,
    Option<u8>,
) {
    let video = if latency { byte_at(p, 6) } else { None };
    let after_video: int = if video is Some { 7 } else { 6 };
    let audio = if latency { byte_at(p, after_video) } else { None };
    let after_audio: int = if audio is Some { after_video + 1 } else { after_video };
    let interlaced_video = if interlaced { byte_at(p, after_audio) } else { None };
    let after_interlaced_video: int = if interlaced_video is Some {
        after_audio + 1
    } else {
        after_audio
    };
    let interlaced_audio = if interlaced { byte_at(p, after_interlaced_video) } else { None };
    (video, audio, interlaced_video, interlaced_audio)
}

/// `h` holds the HDMI fields decoded from the bytes `p` that follow the OUI.
pub open spec fn hdmi_fields(h: HdmiVendorBlock, p: Seq<u8>) -> bool {
    let flags = p[2];
    let capabilities = byte_or_zero(p, 4);
    let content_types = byte_or_zero(p, 5);
    let latency = bit_set(capabilities, 128);
    let interlaced = bit_set(capabilities, 64);
    let latencies = hdmi_latencies(p, latency, interlaced);
    &&& h.physical_address@ == seq![p[0] / 16, p[0] % 16, p[1] / 16, p[1] % 16]
    &&& h.supports_ai == bit_set(flags, 128)
    &&& h.deep_color_48bit == bit_set(flags, 64)
    &&& h.deep_color_36bit == bit_set(flags, 32)
    &&& h.deep_color_30bit == bit_set(flags, 16)
    &&& h.deep_color_y444 == bit_set(flags, 8)
    &&& h.dvi_dual_link == bit_set(flags, 1)
    &&& h.max_tmds_clock_mhz == (if p.len() > 3 { Some((p[3] * 5) as u16) } else { None })
    &&& h.latency_fields_present == latency
    &&& h.interlaced_latency_fields_present == interlaced
    &&& h.hdmi_video_present == bit_set(capabilities, 32)
    &&& h.cnc_graphics == bit_set(content_types, 1)
    &&& h.cnc_photo == bit_set(content_types, 2)
    &&& h.cnc_cinema == bit_set(content_types, 4)
    &&& h.cnc_game == bit_set(content_types, 8)
    &&& h.video_latency == latencies.0
    &&& h.audio_latency == latencies.1
    &&& h.interlaced_video_latency == latencies.2
    &&& h.interlaced_audio_latency == latencies.3
}

/// `h` is what [`parse_hdmi_vendor_block`] makes of an OUI and the bytes after it: HDMI
/// fields for the HDMI OUI with at least three bytes, nothing otherwise.
pub open spec fn hdmi_parsed_from(h: Option<HdmiVendorBlock>, oui: Seq<u8>, p: Seq<u8>) -> bool {
    if oui == hdmi_oui() && p.len() >= 3 {
        match h {
            Some(x) => hdmi_fields(x, p),
            None => false,
        }
    } else {
        h is None
    }
}

/// Reads the next optional latency byte at `*next` when `present` and the payload has it.
fn read_latency(payload: &[u8], present: bool, next: &mut usize) -> (r: Option<u8>)
    requires
        *old(next) < 10,
    ensures
        r == (if present { byte_at(payload@, *old(next) as int) } else { None }),
        *final(next) == (if r is Some { (*old(next) + 1) as usize } else { *old(next) }),
{
    if present && payload.len() > *next {
        let value = payload[*next];
        *next = *next + 1;
        Some(value)
    } else {
        None
    }
}

/// Decodes the HDMI fields of a vendor-specific data block, when it is one.
pub fn parse_hdmi_vendor_block(oui: [u8; 3], payload: &[u8]) -> (r: Option<HdmiVendorBlock>)
    ensures
        hdmi_parsed_from(r, oui@, payload@),
{
    if !(oui[0] == 0x03 && oui[1] == 0x0c && oui[2] == 0x00) || payload.len() < 3 {
        assert(oui@ == hdmi_oui() ==> oui[0] == 0x03 && oui[1] == 0x0c && oui[2] == 0x00);
        return None;
    }
    assert(oui@ =~= hdmi_oui());
    let feature_flags = payload[2];
    let capabilities = if payload.len() > 4 { payload[4] } else { 0 };
    let content_types = if payload.len() > 5 { payload[5] } else { 0 };
    let latency_fields_present = (capabilities / 128) % 2 == 1;
    let interlaced_latency_fields_present = (capabilities / 64) % 2 == 1;
    let hdmi_video_present = (capabilities / 32) % 2 == 1;

    let mut next: usize = 6;
    let video_latency = read_latency(payload, latency_fields_present, &mut next);
    let audio_latency = read_latency(payload, latency_fields_present, &mut next);
    let interlaced_video_latency = read_latency(
        payload,
        interlaced_latency_fields_present,
        &mut next,
    );
    let interlaced_audio_latency = read_latency(
        payload,
        interlaced_latency_fields_present,
        &mut next,
    );
    let max_tmds_clock_mhz = if payload.len() > 3 {
        Some(payload[3] as u16 * 5)
    } else {
        None
    };
    let physical_address: [u8; 4] = [payload[0] / 16, payload[0] % 16, payload[1] / 16, payload[1] % 16];
    let h = HdmiVendorBlock {
        physical_address,
        supports_ai: (feature_flags / 128) % 2 == 1,
        deep_color_48bit: (feature_flags / 64) % 2 == 1,
        deep_color_36bit: (feature_flags / 32) % 2 == 1,
        deep_color_30bit: (feature_flags / 16) % 2 == 1,
        deep_color_y444: (feature_flags / 8) % 2 == 1,
        dvi_dual_link: feature_flags % 2 == 1,
        max_tmds_clock_mhz,
        latency_fields_present,
        interlaced_latency_fields_present,
        hdmi_video_present,
        cnc_graphics: content_types % 2 == 1,
        cnc_photo: (content_types / 2) % 2 == 1,
        cnc_cinema: (content_types / 4) % 2 == 1,
        cnc_game: (content_types / 8) % 2 == 1,
        video_latency,
        audio_latency,
        interlaced_video_latency,
        interlaced_audio_latency,
    };
    assert(physical_address@ =~= seq![payload@[0] / 16, payload@[0] % 16, payload@[1] / 16, payload@[1] % 16]);
    Some(h)
}

} // verus!

verus! {

/// What parsing the payload of a data block with `tag` reports, if anything.
pub open spec fn data_block_parse_error(tag: u8, payload: Seq<u8>) -> Option<ErrorView> {
    if tag == 1 && payload.len() % 3 != 0 {
        Some(ErrorView::Parse("audio data block length must be divisible by 3"@))
    } else if tag == 3 && payload.len() < 3 {
        Some(ErrorView::Parse("vendor block must contain at least 3 bytes for OUI"@))
    } else if tag == 7 && payload.len() == 0 {
        Some(ErrorView::Parse("extended tag block must contain an extended tag"@))
    } else if tag == 7 && payload[0] == 6 && payload.len() < 3 {
        Some(ErrorView::Parse("HDR static metadata block must contain at least two bytes"@))
    } else {
        None
    }
}

/// The HDR static metadata read from the bytes after the extended tag.
pub open spec fn hdr_of(p: Seq<u8>) -> HdrStaticMetadataBlock {
    HdrStaticMetadataBlock {
        electro_optical_transfer_functions: p[0],
        static_metadata_descriptors: p[1],
        desired_content_max_luminance: byte_at(p, 2),
        desired_content_max_frame_average_luminance: byte_at(p, 3),
        desired_content_min_luminance: byte_at(p, 4),
    }
}

/// The short audio descriptors hold the payload three bytes at a time.
pub open spec fn audio_parsed_from(a: AudioBlock, payload: Seq<u8>) -> bool {
    &&& a.short_audio_descriptors@.len() * 3 == payload.len()
    &&& forall|i: int|
        0 <= i < a.short_audio_descriptors@.len() ==> (#[trigger] a.short_audio_descriptors@[i])@
            == payload.subrange(3 * i, 3 * i + 3)
}

/// `d` is what parsing a data block with `tag` and `payload` gives.
pub open spec fn data_block_parsed_from(d: DataBlock, tag: u8, payload: Seq<u8>) -> bool {
    if tag == 1 {
        d matches DataBlock::Audio(a) && audio_parsed_from(a, payload)
    } else if tag == 2 {
        d matches DataBlock::Video(v) && v.vic_codes@ == payload
    } else if tag == 3 {
        &&& d matches DataBlock::Vendor(v)
        &&& v.oui@ == payload.take(3)
        &&& v.payload@ == payload.skip(3)
        &&& hdmi_parsed_from(v.hdmi, payload.take(3), payload.skip(3))
    } else if tag == 4 {
        d matches DataBlock::SpeakerAllocation(s) && s.bytes@ == payload
    } else if tag == 7 {
        if payload[0] == 6 && payload.len() <= 6 {
            d matches DataBlock::HdrStaticMetadata(h) && h == hdr_of(payload.skip(1))
        } else {
            &&& d matches DataBlock::Extended(e)
            &&& e.extended_tag == payload[0]
            &&& e.payload@ == payload.skip(1)
        }
    } else {
        d matches DataBlock::Unknown { tag: t, payload: p } && t == tag && p@ == payload
    }
}

/// Copies a byte slice into a new vector.
fn to_vec(bytes: &[u8]) -> (v: Vec<u8>)
    ensures
        v@ == bytes@,
{
    vstd::slice::slice_to_vec(bytes)
}

/// Reads an audio data block payload.
pub fn parse_audio_block(payload: &[u8]) -> (r: Result<DataBlock, EdidError>)
    ensures
        fails_as(r, data_block_parse_error(1, payload@)),
        r matches Ok(d) ==> data_block_parsed_from(d, 1, payload@),
{
    if payload.len() % 3 != 0 {
        return Err(parse_error("audio data block length must be divisible by 3"));
    }
    let mut descriptors: Vec<[u8; 3]> = Vec::new();
    let n = payload.len();
    let count = n / 3;
    let mut i: usize = 0;
    while i < count
        invariant
            i <= count,
            n == payload@.len(),
            count * 3 == payload@.len(),
            descriptors@.len() == i,
            forall|j: int|
                0 <= j < i ==> (#[trigger] descriptors@[j])@ == payload@.subrange(3 * j, 3 * j + 3),
        decreases count - i,
    {
        assert(3 * i + 2 < payload@.len()) by (nonlinear_arith)
            requires
                i < count,
                count * 3 == payload@.len(),
        ;
        let chunk: [u8; 3] = [payload[3 * i], payload[3 * i + 1], payload[3 * i + 2]];
        assert(chunk@ =~= payload@.subrange(3 * i, 3 * i + 3));
        descriptors.push(chunk);
        i = i + 1;
    }
    Ok(DataBlock::Audio(AudioBlock { short_audio_descriptors: descriptors }))
}

/// Reads a vendor-specific data block payload: OUI, the bytes after it, and HDMI fields.
pub fn parse_vendor_block(payload: &[u8]) -> (r: Result<DataBlock, EdidError>)
    ensures
        fails_as(r, data_block_parse_error(3, payload@)),
        r matches Ok(d) ==> data_block_parsed_from(d, 3, payload@),
{
    if payload.len() < 3 {
        return Err(parse_error("vendor block must contain at least 3 bytes for OUI"));
    }
    let oui: [u8; 3] = [payload[0], payload[1], payload[2]];
    assert(oui@ =~= payload@.take(3));
    let rest = vstd::slice::slice_subrange(payload, 3, payload.len());
    assert(rest@ =~= payload@.skip(3));
    let hdmi = parse_hdmi_vendor_block(oui, rest);
    Ok(DataBlock::Vendor(VendorBlock { oui, payload: to_vec(rest), hdmi }))
}

/// Reads an HDR static metadata payload (the bytes after the extended tag).
pub fn parse_hdr_static_metadata_block(payload: &[u8]) -> (r: Result<DataBlock, EdidError>)
    ensures
        fails_as(
            r,
            if payload@.len() < 2 {
                Some(ErrorView::Parse("HDR static metadata block must contain at least two bytes"@))
            } else {
                None
            },
        ),
        r matches Ok(d) ==> d == DataBlock::HdrStaticMetadata(hdr_of(payload@)),
{
    if payload.len() < 2 {
        return Err(parse_error("HDR static metadata block must contain at least two bytes"));
    }
    Ok(
        DataBlock::HdrStaticMetadata(
            HdrStaticMetadataBlock {
                electro_optical_transfer_functions: payload[0],
                static_metadata_descriptors: payload[1],
                desired_content_max_luminance: if payload.len() > 2 {
                    Some(payload[2])
                } else {
                    None
                },
                desired_content_max_frame_average_luminance: if payload.len() > 3 {
                    Some(payload[3])
                } else {
                    None
                },
                desired_content_min_luminance: if payload.len() > 4 {
                    Some(payload[4])
                } else {
                    None
                },
            },
        ),
    )
}

/// Reads a data block with an extended tag: HDR static metadata for tag 6 with at most the
/// five bytes that HDR static metadata defines, a generic block otherwise (so that the bytes
/// of a longer block are kept).
pub fn parse_extended_tag_block(payload: &[u8]) -> (r: Result<DataBlock, EdidError>)
    ensures
        fails_as(r, data_block_parse_error(7, payload@)),
        r matches Ok(d) ==> data_block_parsed_from(d, 7, payload@),
{
    if payload.len() == 0 {
        return Err(parse_error("extended tag block must contain an extended tag"));
    }
    let rest = vstd::slice::slice_subrange(payload, 1, payload.len());
    assert(rest@ =~= payload@.skip(1));
    if payload[0] == 0x06 && payload.len() <= 6 {
        return parse_hdr_static_metadata_block(rest);
    }
    Ok(DataBlock::Extended(ExtendedTagBlock { extended_tag: payload[0], payload: to_vec(rest) }))
}

/// Reads one data block given its tag and payload.
pub fn parse_data_block(tag: u8, payload: &[u8]) -> (r: Result<DataBlock, EdidError>)
    ensures
        fails_as(r, data_block_parse_error(tag, payload@)),
        r matches Ok(d) ==> data_block_parsed_from(d, tag, payload@),
{
    if tag == 0x01 {
        parse_audio_block(payload)
    } else if tag == 0x02 {
        Ok(DataBlock::Video(VideoBlock { vic_codes: to_vec(payload) }))
    } else if tag == 0x03 {
        parse_vendor_block(payload)
    } else if tag == 0x04 {
        Ok(DataBlock::SpeakerAllocation(SpeakerAllocationBlock { bytes: to_vec(payload) }))
    } else if tag == 0x07 {
        parse_extended_tag_block(payload)
    } else {
        Ok(DataBlock::Unknown { tag, payload: to_vec(payload) })
    }
}

/* Walking the data block collection of a CTA-861 extension */

/// The tag of the data block whose header byte is at `cursor`.
pub open spec fn header_tag(block: Seq<u8>, cursor: int) -> u8 {
    block[cursor] / 32
}

/// Where the data block whose header byte is at `cursor` ends.
pub open spec fn block_end(block: Seq<u8>, cursor: int) -> int {
    cursor + 1 + block[cursor] % 32
}

/// The first error met walking data blocks from `cursor` up to `offset`.
pub open spec fn walk_error(block: Seq<u8>, cursor: int, offset: int) -> Option<ErrorView>
    decreases offset - cursor,
{
    if cursor >= offset {
        None
    } else if block_end(block, cursor) > offset {
        Some(ErrorView::Parse("CTA data block overruns payload"@))
    } else {
        match data_block_parse_error(
            header_tag(block, cursor),
            block.subrange(cursor + 1, block_end(block, cursor)),
        ) {
            Some(e) => Some(e),
            None => walk_error(block, block_end(block, cursor), offset),
        }
    }
}

/// The tags and payloads of the data blocks from `cursor` up to `offset`.
pub open spec fn walk_blocks(block: Seq<u8>, cursor: int, offset: int) -> Seq<(u8, Seq<u8>)>
    decreases offset - cursor,
{
    if cursor >= offset || block_end(block, cursor) > offset {
        seq![]
    } else {
        seq![(header_tag(block, cursor), block.subrange(cursor + 1, block_end(block, cursor)))]
            + walk_blocks(block, block_end(block, cursor), offset)
    }
}

/// The message for a detailed timing offset outside 4..=127.
pub open spec fn bad_offset_message(offset: u8) -> Seq<char> {
    "invalid CTA detailed timing offset "@ + decimal(offset as nat)
}

/// What [`parse_cta861_extension`] reports for `block`, if anything.
pub open spec fn cta_parse_error(block: Seq<u8>) -> Option<ErrorView> {
    if block.len() != 128 {
        Some(ErrorView::InvalidLength)
    } else if !(4 <= block[2] <= 127) {
        Some(ErrorView::Parse(bad_offset_message(block[2])))
    } else {
        walk_error(block, 4, block[2] as int)
    }
}

/// `c` is what [`parse_cta861_extension`] makes of the 128 bytes `block`.
pub open spec fn cta_parsed_from(c: Cta861Extension, block: Seq<u8>) -> bool {
    let blocks = walk_blocks(block, 4, block[2] as int);
    &&& c.revision == block[1]
    &&& c.detailed_timing_offset == block[2]
    &&& c.flags == block[3]
    &&& c.raw_block@ == block
    &&& c.data_blocks@.len() == blocks.len()
    &&& forall|i: int|
        0 <= i < blocks.len() ==> data_block_parsed_from(
            #[trigger] c.data_blocks@[i],
            blocks[i].0,
            blocks[i].1,
        )
}

/// Reads a CTA-861 extension block.
pub fn parse_cta861_extension(block: &[u8]) -> (r: Result<Cta861Extension, EdidError>)
    ensures
        fails_as(r, cta_parse_error(block@)),
        r matches Ok(c) ==> cta_parsed_from(c, block@),
{
    if block.len() != 128 {
        return Err(EdidError::InvalidLength);
    }
    let offset = block[2] as usize;
    if offset < 4 || offset > 127 {
        let mut message = "invalid CTA detailed timing offset ".to_owned();
        push_decimal(&mut message, block[2] as usize);
        return Err(EdidError::ParseError(message));
    }
    let ghost b = block@;
    let ghost off = offset as int;
    let mut data_blocks: Vec<DataBlock> = Vec::new();
    let ghost mut done: Seq<(u8, Seq<u8>)> = seq![];
    let mut cursor: usize = 4;
    while cursor < offset
        invariant
            b == block@,
            b.len() == 128,
            off == offset,
            b[2] == offset,
            4 <= cursor <= offset <= 127,
            walk_error(b, 4, off) == walk_error(b, cursor as int, off),
            walk_blocks(b, 4, off) == done + walk_blocks(b, cursor as int, off),
            data_blocks@.len() == done.len(),
            forall|i: int|
                0 <= i < done.len() ==> data_block_parsed_from(
                    #[trigger] data_blocks@[i],
                    done[i].0,
                    done[i].1,
                ),
        decreases offset - cursor,
    {
        let header = block[cursor];
        let tag = header / 32;
        let len = (header % 32) as usize;
        let end = cursor + 1 + len;
        if end > offset {
            return Err(parse_error("CTA data block overruns payload"));
        }
        let payload = vstd::slice::slice_subrange(block, cursor + 1, end);
        let data_block = parse_data_block(tag, payload)?;
        proof {
            let pair = (tag, payload@);
            assert(walk_blocks(b, cursor as int, off) == seq![pair] + walk_blocks(b, end as int, off));
            assert(done + walk_blocks(b, cursor as int, off) =~= done.push(pair) + walk_blocks(b, end as int, off));
            done = done.push(pair);
        }
        data_blocks.push(data_block);
        cursor = end;
    }
    assert(done + walk_blocks(b, cursor as int, off) =~= done);
    Ok(
        Cta861Extension {
            revision: block[1],
            detailed_timing_offset: block[2],
            flags: block[3],
            data_blocks,
            raw_block: to_vec(block),
        },
    )
}

} // verus!
