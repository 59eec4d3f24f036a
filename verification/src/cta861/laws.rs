use vstd::prelude::*;

use crate::error::ErrorView;
use crate::utils::{checksum_byte, checksum_ok, lemma_checksum_byte_ignores_last, lemma_checksum_byte_of_valid_block};
use super::parse::{
    audio_parsed_from, block_end, byte_at, byte_or_zero, hdmi_fields, hdmi_latencies, hdmi_oui,
    hdmi_parsed_from, cta_parse_error, cta_parsed_from,
    data_block_parse_error, data_block_parsed_from, hdr_of, header_tag, walk_blocks, walk_error,
};
use super::types::{Cta861Extension, DataBlock, HdmiVendorBlock, VendorBlock};
use super::edit::{
    first_of_kind, first_of_kind_from, is_kind, lemma_first_of_kind_from, lemma_without_vic_len,
    speaker_allocation_set, vic_added, vic_removed, BlockKind, content_types_byte,
    content_types_updated, padded, tmds_clock_valid, tmds_updated,
};
use super::write::{
    blocks_encoding, clamped_offset, cta_block_bytes, cta_body, data_block_encoding, flatten_descriptors,
    lemma_encoding_tag_fits,
    optional_byte,
};

verus! {

/// Short audio descriptors read three bytes at a time are laid end to end as those bytes.
proof fn lemma_flatten_audio(sads: Seq<[u8; 3]>, payload: Seq<u8>)
    requires
        sads.len() * 3 == payload.len(),
        forall|i: int| 0 <= i < sads.len() ==> (#[trigger] sads[i])@ == payload.subrange(3 * i, 3 * i + 3),
    ensures
        flatten_descriptors(sads) == payload,
    decreases sads.len(),
{
    if sads.len() > 0 {
        let n = sads.len() - 1;
        let front = payload.subrange(0, 3 * n);
        assert forall|i: int| 0 <= i < n implies (#[trigger] sads.drop_last()[i])@ == front.subrange(3 * i, 3 * i + 3) by {
            assert(sads.drop_last()[i] == sads[i]);
            assert(front.subrange(3 * i, 3 * i + 3) =~= payload.subrange(3 * i, 3 * i + 3));
        }
        lemma_flatten_audio(sads.drop_last(), front);
        assert(sads.last()@ == payload.subrange(3 * n, 3 * n + 3));
        assert(front + payload.subrange(3 * n, 3 * n + 3) =~= payload);
    } else {
        assert(payload =~= seq![]);
    }
}

/// A data block read from `tag` and `payload` encodes back to them.
pub proof fn lemma_data_block_round_trip(d: DataBlock, tag: u8, payload: Seq<u8>)
    requires
        tag <= 7,
        data_block_parse_error(tag, payload) is None,
        data_block_parsed_from(d, tag, payload),
    ensures
        data_block_encoding(d) == Ok::<(u8, Seq<u8>), ErrorView>((tag, payload)),
{
    match d {
        DataBlock::Audio(a) => {
            lemma_flatten_audio(a.short_audio_descriptors@, payload);
        },
        DataBlock::Vendor(v) => {
            assert(payload.take(3) + payload.skip(3) =~= payload);
        },
        DataBlock::HdrStaticMetadata(h) => {
            let rest = payload.skip(1);
            assert(h == hdr_of(rest));
            let encoded = seq![0x06u8, h.electro_optical_transfer_functions, h.static_metadata_descriptors]
                + optional_byte(h.desired_content_max_luminance) + optional_byte(
                h.desired_content_max_frame_average_luminance,
            ) + optional_byte(h.desired_content_min_luminance);
            assert(encoded =~= payload);
        },
        DataBlock::Extended(e) => {
            assert(seq![e.extended_tag] + e.payload@ =~= payload);
        },
        _ => {},
    }
}

/// Encoding two runs of data blocks one after the other gives their encodings one after
/// the other.
pub proof fn lemma_blocks_encoding_concat(a: Seq<DataBlock>, c: Seq<DataBlock>)
    requires
        blocks_encoding(a) is Ok,
        blocks_encoding(c) is Ok,
    ensures
        blocks_encoding(a + c) == Ok::<Seq<u8>, ErrorView>(blocks_encoding(a)->Ok_0 + blocks_encoding(c)->Ok_0),
    decreases c.len(),
{
    if c.len() == 0 {
        assert(a + c =~= a);
        assert(blocks_encoding(a)->Ok_0 + blocks_encoding(c)->Ok_0 =~= blocks_encoding(a)->Ok_0);
    } else {
        assert((a + c).drop_last() =~= a + c.drop_last());
        assert((a + c).last() == c.last());
        lemma_blocks_encoding_concat(a, c.drop_last());
        let x = blocks_encoding(a)->Ok_0;
        let y = blocks_encoding(c.drop_last())->Ok_0;
        let (tag, p) = data_block_encoding(c.last())->Ok_0;
        assert(x + y + seq![(tag * 32 + p.len()) as u8] + p =~= x + (y + seq![(tag * 32 + p.len()) as u8] + p));
    }
}

/// Data blocks read by walking `block` from `cursor` to `offset` encode back to exactly the
/// bytes walked.
pub proof fn lemma_walk_round_trip(block: Seq<u8>, cursor: int, offset: int, ds: Seq<DataBlock>)
    requires
        block.len() == 128,
        4 <= cursor <= offset <= 127,
        walk_error(block, cursor, offset) is None,
        ds.len() == walk_blocks(block, cursor, offset).len(),
        forall|i: int|
            0 <= i < ds.len() ==> data_block_parsed_from(
                #[trigger] ds[i],
                walk_blocks(block, cursor, offset)[i].0,
                walk_blocks(block, cursor, offset)[i].1,
            ),
    ensures
        blocks_encoding(ds) == Ok::<Seq<u8>, ErrorView>(block.subrange(cursor, offset)),
    decreases offset - cursor,
{
    let walk = walk_blocks(block, cursor, offset);
    if cursor >= offset {
        assert(ds =~= seq![]);
        assert(block.subrange(cursor, offset) =~= seq![]);
    } else {
        let end = block_end(block, cursor);
        let tag = header_tag(block, cursor);
        let payload = block.subrange(cursor + 1, end);
        let rest = walk_blocks(block, end, offset);
        assert(walk == seq![(tag, payload)] + rest);
        let tail = ds.skip(1);
        assert forall|i: int| 0 <= i < tail.len() implies data_block_parsed_from(
            #[trigger] tail[i],
            rest[i].0,
            rest[i].1,
        ) by {
            assert(tail[i] == ds[i + 1]);
            assert(walk[i + 1] == rest[i]);
        }
        lemma_walk_round_trip(block, end, offset, tail);
        assert(walk[0] == (tag, payload));
        assert(data_block_parsed_from(ds[0], tag, payload));
        lemma_data_block_round_trip(ds[0], tag, payload);
        let head = seq![ds[0]];
        assert(head.drop_last() =~= seq![]);
        assert(head.last() == ds[0]);
        assert(blocks_encoding(head.drop_last()) == Ok::<Seq<u8>, ErrorView>(seq![]));
        assert(payload.len() <= 31);
        let empty: Seq<u8> = seq![];
        assert(empty + seq![(tag * 32 + payload.len()) as u8] + payload =~= seq![(tag * 32 + payload.len()) as u8] + payload);
        assert(blocks_encoding(head) == Ok::<Seq<u8>, ErrorView>(seq![(tag * 32 + payload.len()) as u8] + payload));
        lemma_blocks_encoding_concat(head, tail);
        assert(head + tail =~= ds);
        assert((tag * 32 + payload.len()) as u8 == block[cursor]);
        assert(seq![block[cursor]] + payload + block.subrange(end, offset) =~= block.subrange(cursor, offset));
    }
}

/// A CTA-861 extension is written back byte for byte from what is read from it.
pub proof fn lemma_cta_round_trip(c: Cta861Extension, block: Seq<u8>)
    requires
        block.len() == 128,
        block[0] == 0x02,
        checksum_ok(block),
        cta_parse_error(block) is None,
        cta_parsed_from(c, block),
    ensures
        cta_block_bytes(c) == Ok::<Seq<u8>, ErrorView>(block),
{
    let offset = block[2] as int;
    let walk = walk_blocks(block, 4, offset);
    assert forall|i: int| 0 <= i < c.data_blocks@.len() implies data_block_parsed_from(
        #[trigger] c.data_blocks@[i],
        walk[i].0,
        walk[i].1,
    ) by {}
    lemma_walk_round_trip(block, 4, offset, c.data_blocks@);
    let data = block.subrange(4, offset);
    let body = cta_body(c, data);
    assert forall|i: int| 0 <= i < 127 implies #[trigger] body[i] == block[i] by {}
    assert(body.take(127) =~= block.take(127));
    lemma_checksum_byte_ignores_last(body, block);
    lemma_checksum_byte_of_valid_block(block);
    assert(body.update(127, checksum_byte(body)) =~= block);
}

} // verus!

verus! {

/// `d` is in the form reading its own encoding gives back: the decoded HDMI fields of a
/// vendor block agree with its payload, the optional HDR luminances are present in order,
/// an extended block does not carry the HDR tag unless it is longer than HDR metadata, and
/// an unknown block has a tag that fits in three bits and names no typed block.
pub open spec fn data_block_canonical(d: DataBlock) -> bool {
    match d {
        DataBlock::Vendor(v) => hdmi_parsed_from(v.hdmi, v.oui@, v.payload@),
        DataBlock::HdrStaticMetadata(h) => {
            &&& (h.desired_content_max_luminance is None ==> h.desired_content_max_frame_average_luminance is None)
            &&& (h.desired_content_max_frame_average_luminance is None ==> h.desired_content_min_luminance is None)
        },
        DataBlock::Extended(e) => e.extended_tag != 6 || e.payload@.len() > 5,
        DataBlock::Unknown { tag, payload } => tag <= 7 && tag != 1 && tag != 2 && tag != 3 && tag != 4 && tag != 7,
        _ => true,
    }
}

/// `a` and `b` hold the same data: equal fields, vectors equal as sequences.
pub open spec fn same_data_block(a: DataBlock, b: DataBlock) -> bool {
    match (a, b) {
        (DataBlock::Video(x), DataBlock::Video(y)) => x.vic_codes@ == y.vic_codes@,
        (DataBlock::Audio(x), DataBlock::Audio(y)) => x.short_audio_descriptors@ == y.short_audio_descriptors@,
        (DataBlock::Vendor(x), DataBlock::Vendor(y)) => x.oui == y.oui && x.payload@ == y.payload@ && x.hdmi == y.hdmi,
        (DataBlock::SpeakerAllocation(x), DataBlock::SpeakerAllocation(y)) => x.bytes@ == y.bytes@,
        (DataBlock::HdrStaticMetadata(x), DataBlock::HdrStaticMetadata(y)) => x == y,
        (DataBlock::Extended(x), DataBlock::Extended(y)) => x.extended_tag == y.extended_tag && x.payload@ == y.payload@,
        (DataBlock::Unknown { tag: t1, payload: p1 }, DataBlock::Unknown { tag: t2, payload: p2 }) => t1 == t2 && p1@ == p2@,
        _ => false,
    }
}

/// The encoding of short audio descriptors holds each descriptor at its place.
proof fn lemma_flatten_layout(sads: Seq<[u8; 3]>)
    ensures
        flatten_descriptors(sads).len() == 3 * sads.len(),
        forall|i: int| 0 <= i < sads.len() ==> flatten_descriptors(sads).subrange(3 * i, 3 * i + 3) == (#[trigger] sads[i])@,
    decreases sads.len(),
{
    if sads.len() > 0 {
        let front = sads.drop_last();
        lemma_flatten_layout(front);
        let f = flatten_descriptors(sads);
        let ff = flatten_descriptors(front);
        assert forall|i: int| 0 <= i < sads.len() implies f.subrange(3 * i, 3 * i + 3) == (#[trigger] sads[i])@ by {
            if i < sads.len() - 1 {
                assert(front[i] == sads[i]);
                assert(f.subrange(3 * i, 3 * i + 3) =~= ff.subrange(3 * i, 3 * i + 3));
            } else {
                assert(f.subrange(3 * i, 3 * i + 3) =~= sads.last()@);
            }
        }
    }
}

/// Two HDMI field sets decoded from the same payload are equal.
proof fn lemma_hdmi_fields_unique(x: HdmiVendorBlock, y: HdmiVendorBlock, p: Seq<u8>)
    requires
        hdmi_fields(x, p),
        hdmi_fields(y, p),
    ensures
        x == y,
{
    assert(x.physical_address =~= y.physical_address);
}

/// Two decodings of the HDMI fields of the same OUI and payload agree.
pub proof fn lemma_hdmi_parsed_unique(x: Option<HdmiVendorBlock>, y: Option<HdmiVendorBlock>, oui: Seq<u8>, p: Seq<u8>)
    requires
        hdmi_parsed_from(x, oui, p),
        hdmi_parsed_from(y, oui, p),
    ensures
        x == y,
{
    if let (Some(a), Some(b)) = (x, y) {
        lemma_hdmi_fields_unique(a, b, p);
    }
}

/// A canonical data block reads back from its own encoding as the same data.
pub proof fn lemma_data_block_reads_back(d: DataBlock, d2: DataBlock)
    requires
        data_block_canonical(d),
        data_block_encoding(d) is Ok,
        data_block_parsed_from(d2, data_block_encoding(d)->Ok_0.0, data_block_encoding(d)->Ok_0.1),
    ensures
        data_block_parse_error(data_block_encoding(d)->Ok_0.0, data_block_encoding(d)->Ok_0.1) is None,
        same_data_block(d, d2),
{
    let (tag, p) = data_block_encoding(d)->Ok_0;
    match d {
        DataBlock::Audio(a) => {
            lemma_flatten_layout(a.short_audio_descriptors@);
            if let DataBlock::Audio(b) = d2 {
                assert forall|i: int| 0 <= i < a.short_audio_descriptors@.len() implies #[trigger] b.short_audio_descriptors@[i]
                    == a.short_audio_descriptors@[i] by {
                    assert(b.short_audio_descriptors@[i] =~= a.short_audio_descriptors@[i]);
                }
                assert(b.short_audio_descriptors@ =~= a.short_audio_descriptors@);
            }
        },
        DataBlock::Vendor(v) => {
            if let DataBlock::Vendor(w) = d2 {
                assert(p.take(3) =~= v.oui@);
                assert(p.skip(3) =~= v.payload@);
                assert(w.oui =~= v.oui);
                lemma_hdmi_parsed_unique(v.hdmi, w.hdmi, v.oui@, v.payload@);
            }
        },
        DataBlock::HdrStaticMetadata(h) => {
            let rest = p.skip(1);
            assert(p[0] == 6);
            assert(rest[0] == h.electro_optical_transfer_functions);
            assert(rest[1] == h.static_metadata_descriptors);
            assert(byte_at(rest, 2) == h.desired_content_max_luminance);
            assert(byte_at(rest, 3) == h.desired_content_max_frame_average_luminance);
            assert(byte_at(rest, 4) == h.desired_content_min_luminance);
        },
        DataBlock::Extended(e) => {
            assert(p.skip(1) =~= e.payload@);
        },
        _ => {},
    }
}

} // verus!

verus! {

/// The tag and payload each block of `ds` encodes to.
pub open spec fn encodings(ds: Seq<DataBlock>) -> Seq<(u8, Seq<u8>)> {
    Seq::new(ds.len(), |i: int| data_block_encoding(ds[i])->Ok_0)
}

/// A run of blocks that encodes as a whole encodes in each of its two parts.
pub proof fn lemma_blocks_encoding_split(a: Seq<DataBlock>, c: Seq<DataBlock>)
    requires
        blocks_encoding(a + c) is Ok,
    ensures
        blocks_encoding(a) is Ok,
        blocks_encoding(c) is Ok,
    decreases c.len(),
{
    if c.len() == 0 {
        assert(a + c =~= a);
    } else {
        assert((a + c).drop_last() =~= a + c.drop_last());
        assert((a + c).last() == c.last());
        lemma_blocks_encoding_split(a, c.drop_last());
    }
}

/// The first block of an encodable run: its encoding, then the rest's.
proof fn lemma_blocks_encoding_first(ds: Seq<DataBlock>)
    requires
        ds.len() > 0,
        blocks_encoding(ds) is Ok,
    ensures
        data_block_encoding(ds[0]) is Ok,
        data_block_encoding(ds[0])->Ok_0.1.len() <= 31,
        blocks_encoding(ds.skip(1)) is Ok,
        blocks_encoding(ds)->Ok_0 == seq![
            (data_block_encoding(ds[0])->Ok_0.0 * 32 + data_block_encoding(ds[0])->Ok_0.1.len()) as u8,
        ] + data_block_encoding(ds[0])->Ok_0.1 + blocks_encoding(ds.skip(1))->Ok_0,
{
    let head = seq![ds[0]];
    let tail = ds.skip(1);
    assert(head + tail =~= ds);
    lemma_blocks_encoding_split(head, tail);
    lemma_blocks_encoding_concat(head, tail);
    assert(head.drop_last() =~= seq![]);
    assert(blocks_encoding(head.drop_last()) == Ok::<Seq<u8>, ErrorView>(seq![]));
    let (t, p) = data_block_encoding(ds[0])->Ok_0;
    let empty: Seq<u8> = seq![];
    assert(empty + seq![(t * 32 + p.len()) as u8] + p =~= seq![(t * 32 + p.len()) as u8] + p);
}

/// The encoding of a canonical data block reads without error.
pub proof fn lemma_data_block_encoding_parses(d: DataBlock)
    requires
        data_block_canonical(d),
        data_block_encoding(d) is Ok,
    ensures
        data_block_parse_error(data_block_encoding(d)->Ok_0.0, data_block_encoding(d)->Ok_0.1) is None,
{
    if let DataBlock::Audio(a) = d {
        lemma_flatten_layout(a.short_audio_descriptors@);
    }
}

/// Walking the encoding of canonical data blocks finds exactly their tags and payloads.
pub proof fn lemma_walk_of_encoding(block: Seq<u8>, cursor: int, offset: int, ds: Seq<DataBlock>)
    requires
        block.len() == 128,
        4 <= cursor <= offset <= 127,
        blocks_encoding(ds) is Ok,
        block.subrange(cursor, offset) == blocks_encoding(ds)->Ok_0,
        forall|i: int| 0 <= i < ds.len() ==> data_block_canonical(#[trigger] ds[i]),
    ensures
        walk_error(block, cursor, offset) is None,
        walk_blocks(block, cursor, offset) == encodings(ds),
    decreases ds.len(),
{
    if ds.len() == 0 {
        assert(encodings(ds) =~= seq![]);
    } else {
        lemma_blocks_encoding_first(ds);
        let (t, p) = data_block_encoding(ds[0])->Ok_0;
        lemma_encoding_tag_fits(ds[0]);
        lemma_data_block_encoding_parses(ds[0]);
        let rest = blocks_encoding(ds.skip(1))->Ok_0;
        let hdr = (t * 32 + p.len()) as u8;
        assert(block.subrange(cursor, offset).len() == offset - cursor);
        assert(offset - cursor == 1 + p.len() + rest.len());
        assert(block.subrange(cursor, offset)[0] == hdr);
        assert(block[cursor] == hdr);
        assert(header_tag(block, cursor) == t);
        assert(block_end(block, cursor) == cursor + 1 + p.len());
        let end = cursor + 1 + p.len();
        assert(block.subrange(cursor + 1, end) =~= p) by {
            assert forall|j: int| 0 <= j < p.len() implies block.subrange(cursor + 1, end)[j] == p[j] by {
                assert(block.subrange(cursor, offset)[1 + j] == p[j]);
            }
        }
        assert(block.subrange(end, offset) =~= rest) by {
            assert forall|j: int| 0 <= j < rest.len() implies block.subrange(end, offset)[j] == rest[j] by {
                assert(block.subrange(cursor, offset)[1 + p.len() + j] == rest[j]);
            }
        }
        assert forall|i: int| 0 <= i < ds.skip(1).len() implies data_block_canonical(#[trigger] ds.skip(1)[i]) by {
            assert(ds.skip(1)[i] == ds[i + 1]);
        }
        lemma_walk_of_encoding(block, end, offset, ds.skip(1));
        assert(encodings(ds) =~= seq![(t, p)] + encodings(ds.skip(1)));
    }
}

/// A CTA-861 extension block written from canonical data blocks reads without error, as a CTA-861 block with
/// a sound checksum.
pub proof fn lemma_cta_written_parses(c: Cta861Extension, block: Seq<u8>)
    requires
        cta_block_bytes(c) == Ok::<Seq<u8>, ErrorView>(block),
        forall|i: int| 0 <= i < c.data_blocks@.len() ==> data_block_canonical(#[trigger] c.data_blocks@[i]),
    ensures
        block.len() == 128,
        block[0] == 0x02,
        checksum_ok(block),
        cta_parse_error(block) is None,
        block[2] == 4 + blocks_encoding(c.data_blocks@)->Ok_0.len(),
        walk_blocks(block, 4, block[2] as int) == encodings(c.data_blocks@),
{
    let data = blocks_encoding(c.data_blocks@)->Ok_0;
    let body = cta_body(c, data);
    crate::utils::lemma_checksum_byte_fixes(body);
    assert(block.subrange(4, 4 + data.len() as int) =~= data);
    lemma_walk_of_encoding(block, 4, 4 + data.len() as int, c.data_blocks@);
}

/// Reading a CTA-861 extension block written from canonical data blocks gives back the same
/// header fields and the same data blocks; the detailed timing offset is where the data
/// blocks end.
pub proof fn lemma_cta_reads_back(c: Cta861Extension, block: Seq<u8>, c2: Cta861Extension)
    requires
        cta_block_bytes(c) == Ok::<Seq<u8>, ErrorView>(block),
        forall|i: int| 0 <= i < c.data_blocks@.len() ==> data_block_canonical(#[trigger] c.data_blocks@[i]),
        cta_parsed_from(c2, block),
    ensures
        c2.revision == c.revision,
        c2.flags == c.flags,
        c2.detailed_timing_offset == 4 + blocks_encoding(c.data_blocks@)->Ok_0.len(),
        c2.data_blocks@.len() == c.data_blocks@.len(),
        forall|i: int| 0 <= i < c.data_blocks@.len() ==> same_data_block(#[trigger] c.data_blocks@[i], c2.data_blocks@[i]),
{
    lemma_cta_written_parses(c, block);
    let walk = walk_blocks(block, 4, block[2] as int);
    assert forall|i: int| 0 <= i < c.data_blocks@.len() implies same_data_block(#[trigger] c.data_blocks@[i], c2.data_blocks@[i]) by {
        assert(walk[i] == data_block_encoding(c.data_blocks@[i])->Ok_0);
        lemma_data_block_reads_back(c.data_blocks@[i], c2.data_blocks@[i]);
    }
}

} // verus!

verus! {

/// After adding `vic`, the first video data block holds it.
pub proof fn law_added_vic_is_present(old: Seq<DataBlock>, new: Seq<DataBlock>, vic: u8, added: bool)
    requires
        vic_added(old, new, vic, added),
    ensures
        first_of_kind(new, BlockKind::Video) matches Some(i) && new[i] matches DataBlock::Video(w)
            && w.vic_codes@.contains(vic),
{
    lemma_first_of_kind_from(old, BlockKind::Video, 0);
    match first_of_kind(old, BlockKind::Video) {
        Some(i) => {
            lemma_first_of_kind_from_position(old, new, i);
            if let DataBlock::Video(w) = new[i] {
                if added {
                    assert(w.vic_codes@[w.vic_codes@.len() - 1] == vic);
                }
            }
        },
        None => {
            assert(new[0] matches DataBlock::Video(w) && w.vic_codes@[0] == vic);
        },
    }
}

/// Blocks that replace one block by another of the same kind keep the first index of that
/// kind when the replaced block was the first of its kind.
proof fn lemma_first_of_kind_from_position(old: Seq<DataBlock>, new: Seq<DataBlock>, i: int)
    requires
        first_of_kind(old, BlockKind::Video) == Some(i),
        new.len() == old.len(),
        forall|j: int| 0 <= j < old.len() && j != i ==> #[trigger] new[j] == old[j],
        new[i] is Video,
    ensures
        first_of_kind(new, BlockKind::Video) == Some(i),
{
    lemma_first_of_kind_from(old, BlockKind::Video, 0);
    lemma_first_of_kind_same_prefix(old, new, BlockKind::Video, 0, i);
}

/// Two block lists that agree before `i` and both have a block of kind `kind` at `i` first
/// find that kind at the same place.
proof fn lemma_first_of_kind_same_prefix(a: Seq<DataBlock>, b: Seq<DataBlock>, kind: BlockKind, j: int, i: int)
    requires
        0 <= j <= i < a.len(),
        i < b.len(),
        forall|k: int| j <= k < i ==> !is_kind(#[trigger] a[k], kind),
        forall|k: int| j <= k < i ==> #[trigger] b[k] == a[k],
        is_kind(b[i], kind),
    ensures
        first_of_kind_from(b, kind, j) == Some(i),
    decreases i - j,
{
    if j < i {
        assert(b[j] == a[j]);
        lemma_first_of_kind_same_prefix(a, b, kind, j + 1, i);
    }
}

/// Adding a code that the first video data block already holds changes nothing and reports so.
pub proof fn law_adding_present_vic_is_noop(a: Seq<DataBlock>, b: Seq<DataBlock>, c: Seq<DataBlock>, vic: u8, r1: bool, r2: bool)
    requires
        vic_added(a, b, vic, r1),
        vic_added(b, c, vic, r2),
    ensures
        !r2,
        c == b,
{
    law_added_vic_is_present(a, b, vic, r1);
}

/// After removing `vic`, the first video data block no longer holds it.
pub proof fn law_removed_vic_is_absent(old: Seq<DataBlock>, new: Seq<DataBlock>, vic: u8, removed: bool)
    requires
        vic_removed(old, new, vic, removed),
        first_of_kind(old, BlockKind::Video) is Some,
    ensures
        first_of_kind(new, BlockKind::Video) matches Some(i) && new[i] matches DataBlock::Video(w)
            && !w.vic_codes@.contains(vic),
{
    let i = first_of_kind(old, BlockKind::Video)->Some_0;
    lemma_first_of_kind_from_position(old, new, i);
    if let DataBlock::Video(v) = old[i] {
        lemma_without_vic_len(v.vic_codes@, vic);
    }
}

/// Adding or removing video codes and setting speaker allocation keep every data block
/// canonical.
pub proof fn law_video_and_speaker_edits_keep_blocks_canonical(old: Seq<DataBlock>, new: Seq<DataBlock>, vic: u8, flag: bool, bytes: Seq<u8>)
    requires
        forall|i: int| 0 <= i < old.len() ==> data_block_canonical(#[trigger] old[i]),
        vic_added(old, new, vic, flag) || vic_removed(old, new, vic, flag) || speaker_allocation_set(old, new, bytes),
    ensures
        forall|i: int| 0 <= i < new.len() ==> data_block_canonical(#[trigger] new[i]),
{
    assert forall|i: int| 0 <= i < new.len() implies data_block_canonical(#[trigger] new[i]) by {
        if vic_added(old, new, vic, flag) && first_of_kind(old, BlockKind::Video) is None && i > 0 {
            assert(new[i] == new.skip(1)[i - 1]);
        }
        if speaker_allocation_set(old, new, bytes) && first_of_kind(old, BlockKind::SpeakerAllocation) is None && i < new.len() - 1 {
            assert(new[i] == new.drop_last()[i]);
        }
    }
}

} // verus!

verus! {

/// Setting bit 5 of a capability byte keeps its latency bits.
proof fn lemma_set_video_present_bit(x: u8)
    ensures
        crate::base::bit_set(x | 0x20, 128) == crate::base::bit_set(x, 128),
        crate::base::bit_set(x | 0x20, 64) == crate::base::bit_set(x, 64),
        crate::base::bit_set(x | 0x20, 32),
{
    assert((x | 0x20) / 128 % 2 == x / 128 % 2) by (bit_vector);
    assert((x | 0x20) / 64 % 2 == x / 64 % 2) by (bit_vector);
    assert((x | 0x20) / 32 % 2 == 1) by (bit_vector);
}

/// Payloads that agree from byte 4 on give the same latency fields.
proof fn lemma_latencies_from_byte_4(p: Seq<u8>, q: Seq<u8>, latency: bool, interlaced: bool)
    requires
        forall|j: int| j >= 4 ==> #[trigger] byte_at(p, j) == byte_at(q, j),
    ensures
        hdmi_latencies(p, latency, interlaced) == hdmi_latencies(q, latency, interlaced),
{
    assert(byte_at(p, 6) == byte_at(q, 6));
    assert(byte_at(p, 7) == byte_at(q, 7));
    assert(byte_at(p, 8) == byte_at(q, 8));
    assert(byte_at(p, 9) == byte_at(q, 9));
}

/// Setting the TMDS clock of an HDMI vendor-specific block whose HDMI fields agree with its
/// payload keeps them in agreement, and reading the payload back gives the new clock.
pub proof fn law_tmds_clock_reads_back(v: VendorBlock, w: VendorBlock, mhz: u16)
    requires
        hdmi_parsed_from(v.hdmi, v.oui@, v.payload@),
        v.oui@ == hdmi_oui(),
        v.payload@.len() >= 3,
        tmds_clock_valid(mhz),
        tmds_updated(v, w, mhz),
    ensures
        hdmi_parsed_from(w.hdmi, w.oui@, w.payload@),
        w.hdmi matches Some(h) && h.max_tmds_clock_mhz == Some(mhz),
{
    let p = v.payload@;
    let q = w.payload@;
    assert(q.len() == if p.len() >= 4 { p.len() } else { 4 });
    assert forall|j: int| j >= 4 implies #[trigger] byte_at(q, j) == byte_at(p, j) by {}
    assert(byte_or_zero(q, 4) == byte_or_zero(p, 4));
    assert(byte_or_zero(q, 5) == byte_or_zero(p, 5));
    let caps = byte_or_zero(p, 4);
    lemma_latencies_from_byte_4(p, q, crate::base::bit_set(caps, 128), crate::base::bit_set(caps, 64));
    assert(q[0] == p[0] && q[1] == p[1] && q[2] == p[2]);
    assert(q[3] == (mhz / 5) as u8);
    assert(w.oui@ == v.oui@);
    let h = v.hdmi->Some_0;
    let h2 = w.hdmi->Some_0;
    assert(h2.physical_address@ == h.physical_address@);
}

/// Setting the content types of an HDMI vendor-specific block whose HDMI fields agree with
/// its payload (of at least four bytes, so that the TMDS clock byte is not made up) keeps them
/// in agreement, and reading the payload back gives the new types with
/// HDMI video marked present.
pub proof fn law_content_types_read_back(
    v: VendorBlock,
    w: VendorBlock,
    graphics: bool,
    photo: bool,
    cinema: bool,
    game: bool,
)
    requires
        hdmi_parsed_from(v.hdmi, v.oui@, v.payload@),
        v.oui@ == hdmi_oui(),
        v.payload@.len() >= 4,
        content_types_updated(v, w, graphics, photo, cinema, game),
    ensures
        hdmi_parsed_from(w.hdmi, w.oui@, w.payload@),
        w.hdmi matches Some(h) && h.hdmi_video_present && h.cnc_graphics == graphics && h.cnc_photo
            == photo && h.cnc_cinema == cinema && h.cnc_game == game,
{
    let p = v.payload@;
    let q = w.payload@;
    let p6 = padded(p, 6);
    assert(p6[4] == byte_or_zero(p, 4));
    assert forall|j: int| j >= 6 implies #[trigger] byte_at(q, j) == byte_at(p, j) by {}
    let caps = byte_or_zero(p, 4);
    lemma_set_video_present_bit(caps);
    assert(byte_or_zero(q, 4) == caps | 0x20);
    let ct = content_types_byte(graphics, photo, cinema, game);
    assert(byte_or_zero(q, 5) == ct);
    assert(crate::base::bit_set(ct, 1) == graphics);
    assert(crate::base::bit_set(ct, 2) == photo);
    assert(crate::base::bit_set(ct, 4) == cinema);
    assert(crate::base::bit_set(ct, 8) == game);
    let latency = crate::base::bit_set(caps, 128);
    let interlaced = crate::base::bit_set(caps, 64);
    assert(hdmi_latencies(q, latency, interlaced) == hdmi_latencies(p, latency, interlaced)) by {
        assert(byte_at(q, 6) == byte_at(p, 6));
        assert(byte_at(q, 7) == byte_at(p, 7));
        assert(byte_at(q, 8) == byte_at(p, 8));
        assert(byte_at(q, 9) == byte_at(p, 9));
    }
    assert(q[0] == p[0] && q[1] == p[1] && q[2] == p[2]);
    assert(q[3] == p[3]);
    let h = v.hdmi->Some_0;
    let h2 = w.hdmi->Some_0;
    assert(h2.physical_address@ == h.physical_address@);
}

/// Writing a CTA-861 block keeps the bytes that followed its data blocks (its detailed
/// timing descriptors and padding): the detailed timing offset points just past the new data
/// blocks, the old trailing bytes follow there in order as far as they fit before the
/// checksum byte, and the rest up to the checksum byte is zero.
pub proof fn law_cta_write_keeps_trailing_bytes(c: Cta861Extension, data: Seq<u8>)
    requires
        c.raw_block@.len() == 128,
        blocks_encoding(c.data_blocks@) == Ok::<Seq<u8>, ErrorView>(data),
        data.len() <= 123,
    ensures
        cta_block_bytes(c) is Ok,
        cta_block_bytes(c)->Ok_0[2] == 4 + data.len(),
        forall|j: int|
            4 + data.len() <= j < 127 && j - (4 + data.len()) < 127 - clamped_offset(
                c.detailed_timing_offset,
            ) ==> #[trigger] cta_block_bytes(c)->Ok_0[j] == c.raw_block@[clamped_offset(
                c.detailed_timing_offset,
            ) + (j - (4 + data.len()))],
        forall|j: int|
            4 + data.len() + (127 - clamped_offset(c.detailed_timing_offset)) <= j < 127
                ==> #[trigger] cta_block_bytes(c)->Ok_0[j] == 0,
{
    let out = cta_block_bytes(c)->Ok_0;
    assert forall|j: int| 0 <= j < 127 implies #[trigger] out[j] == cta_body(c, data)[j] by {}
}

} // verus!

verus! {

/// What an HDMI vendor-specific data block says, byte by byte, for the bytes `p` after its
/// OUI. Bytes 0 and 1 hold the four nibbles of the physical address, most significant
/// first. Byte 2 holds the feature flags: AI in bit 7, 48-, 36- and 30-bit deep colour in
/// bits 6 to 4, Y444 deep colour in bit 3 and DVI dual link in bit 0. Byte 3, when present,
/// is the maximum TMDS clock in 5 MHz units. Byte 4 (0 when absent) holds the capabilities:
/// bit 7 announces the video and audio latency fields, bit 6 the interlaced latency fields,
/// bit 5 HDMI video. Byte 5 (0 when absent) holds the content types graphics, photo, cinema
/// and game in bits 0 to 3. The latency fields follow from byte 6 on, the announced groups in
/// order (progressive first), as far as the bytes reach; a group not announced is absent.
pub proof fn law_hdmi_vendor_fields(oui: Seq<u8>, p: Seq<u8>, h: HdmiVendorBlock)
    requires
        hdmi_parsed_from(Some(h), oui, p),
    ensures
        oui == seq![0x03u8, 0x0c, 0x00],
        p.len() >= 3,
        h.physical_address[0] * 16 + h.physical_address[1] == p[0],
        h.physical_address[2] * 16 + h.physical_address[3] == p[1],
        h.physical_address[1] < 16 && h.physical_address[3] < 16,
        h.supports_ai == (p[2] >= 0x80),
        h.deep_color_48bit == ((p[2] / 0x40) % 2 == 1),
        h.deep_color_36bit == ((p[2] / 0x20) % 2 == 1),
        h.deep_color_30bit == ((p[2] / 0x10) % 2 == 1),
        h.deep_color_y444 == ((p[2] / 0x08) % 2 == 1),
        h.dvi_dual_link == (p[2] % 2 == 1),
        p.len() > 3 ==> h.max_tmds_clock_mhz == Some((5 * p[3]) as u16),
        p.len() <= 3 ==> h.max_tmds_clock_mhz is None,
        h.latency_fields_present == (p.len() > 4 && p[4] >= 0x80),
        h.interlaced_latency_fields_present == (p.len() > 4 && (p[4] / 0x40) % 2 == 1),
        h.hdmi_video_present == (p.len() > 4 && (p[4] / 0x20) % 2 == 1),
        h.cnc_graphics == (p.len() > 5 && p[5] % 2 == 1),
        h.cnc_photo == (p.len() > 5 && (p[5] / 2) % 2 == 1),
        h.cnc_cinema == (p.len() > 5 && (p[5] / 4) % 2 == 1),
        h.cnc_game == (p.len() > 5 && (p[5] / 8) % 2 == 1),
        !h.latency_fields_present ==> h.video_latency is None && h.audio_latency is None,
        !h.interlaced_latency_fields_present ==> h.interlaced_video_latency is None
            && h.interlaced_audio_latency is None,
        h.latency_fields_present && p.len() >= 8 ==> h.video_latency == Some(p[6])
            && h.audio_latency == Some(p[7]),
        h.latency_fields_present && h.interlaced_latency_fields_present && p.len() >= 10
            ==> h.interlaced_video_latency == Some(p[8]) && h.interlaced_audio_latency == Some(p[9]),
        !h.latency_fields_present && h.interlaced_latency_fields_present && p.len() >= 8
            ==> h.interlaced_video_latency == Some(p[6]) && h.interlaced_audio_latency == Some(p[7]),
{
    assert(oui =~= seq![0x03u8, 0x0c, 0x00]);
}

} // verus!

verus! {

/// How a CTA-861 data block reads from its tag and payload: tag 1 is audio, the payload cut
/// into three-byte short audio descriptors; tag 2 is video, one VIC per byte; tag 3 is
/// vendor-specific, the first three bytes its OUI and the rest its payload; tag 4 is the
/// speaker allocation bytes; tag 7 is an extended-tag block, the first byte its extended tag:
/// HDR static metadata (extended tag 6, at most five more bytes) holds the EOTF byte, the
/// static metadata descriptor byte and the three optional luminance bytes in order, any
/// other is kept as its extended tag and the bytes after it. Other tags keep tag and payload.
pub proof fn law_data_block_fields(d: DataBlock, tag: u8, p: Seq<u8>)
    requires
        data_block_parse_error(tag, p) is None,
        data_block_parsed_from(d, tag, p),
    ensures
        tag == 1 ==> (d matches DataBlock::Audio(a) && 3 * a.short_audio_descriptors@.len() == p.len()
            && forall|i: int| 0 <= i < a.short_audio_descriptors@.len() ==> (forall|j: int|
                0 <= j < 3 ==> (#[trigger] a.short_audio_descriptors@[i])@[j] == p[3 * i + j])),
        tag == 2 ==> (d matches DataBlock::Video(v) && v.vic_codes@ == p),
        tag == 3 ==> (d matches DataBlock::Vendor(v) && p.len() >= 3 && v.oui@ == seq![p[0], p[1], p[2]]
            && v.payload@ == p.subrange(3, p.len() as int)),
        tag == 4 ==> (d matches DataBlock::SpeakerAllocation(s) && s.bytes@ == p),
        tag == 7 && p[0] == 6 && p.len() <= 6 ==> (d matches DataBlock::HdrStaticMetadata(h)
            && p.len() >= 3
            && h.electro_optical_transfer_functions == p[1]
            && h.static_metadata_descriptors == p[2]
            && h.desired_content_max_luminance == (if p.len() > 3 { Some(p[3]) } else { None })
            && h.desired_content_max_frame_average_luminance == (if p.len() > 4 { Some(p[4]) } else { None })
            && h.desired_content_min_luminance == (if p.len() > 5 { Some(p[5]) } else { None })),
        tag == 7 && !(p[0] == 6 && p.len() <= 6) ==> (d matches DataBlock::Extended(e) && p.len() >= 1
            && e.extended_tag == p[0] && e.payload@ == p.subrange(1, p.len() as int)),
        !(1 <= tag <= 4 || tag == 7) ==> (d matches DataBlock::Unknown { tag: t, payload: q } && t == tag
            && q@ == p),
{
    if tag == 1 {
        if let DataBlock::Audio(a) = d {
            assert forall|i: int| 0 <= i < a.short_audio_descriptors@.len() implies (forall|j: int|
                0 <= j < 3 ==> (#[trigger] a.short_audio_descriptors@[i])@[j] == p[3 * i + j]) by {
                assert(a.short_audio_descriptors@[i]@ == p.subrange(3 * i, 3 * i + 3));
            }
        }
    }
    if tag == 3 {
        assert(p.take(3) =~= seq![p[0], p[1], p[2]]);
    }
}

/// Tags and payloads laid out as CTA-861 data blocks: each as a header byte holding the tag
/// in its top three bits and the payload length in its low five, then the payload.
pub open spec fn cta_blocks_layout(w: Seq<(u8, Seq<u8>)>) -> Seq<u8>
    decreases w.len(),
{
    if w.len() == 0 {
        seq![]
    } else {
        seq![(32 * w[0].0 + w[0].1.len()) as u8] + w[0].1 + cta_blocks_layout(w.skip(1))
    }
}

/// The data blocks walked from `cursor` up to `offset` lay out as exactly the bytes walked.
proof fn lemma_cta_walk_layout(block: Seq<u8>, cursor: int, offset: int)
    requires
        block.len() == 128,
        4 <= cursor <= offset <= 127,
        walk_error(block, cursor, offset) is None,
    ensures
        cta_blocks_layout(walk_blocks(block, cursor, offset)) == block.subrange(cursor, offset),
        forall|i: int| 0 <= i < walk_blocks(block, cursor, offset).len() ==> (#[trigger] walk_blocks(block, cursor, offset)[i]).0 < 8
            && walk_blocks(block, cursor, offset)[i].1.len() < 32,
    decreases offset - cursor,
{
    let walk = walk_blocks(block, cursor, offset);
    if cursor >= offset {
        assert(block.subrange(cursor, offset) =~= seq![]);
    } else {
        let end = block_end(block, cursor);
        let rest = walk_blocks(block, end, offset);
        lemma_cta_walk_layout(block, end, offset);
        assert(walk == seq![(header_tag(block, cursor), block.subrange(cursor + 1, end))] + rest);
        assert(walk.skip(1) =~= rest);
        assert((32 * header_tag(block, cursor) + block.subrange(cursor + 1, end).len()) as u8 == block[cursor]);
        assert(seq![block[cursor]] + block.subrange(cursor + 1, end) + block.subrange(end, offset)
            =~= block.subrange(cursor, offset));
        assert forall|i: int| 0 <= i < walk.len() implies (#[trigger] walk[i]).0 < 8 && walk[i].1.len() < 32 by {
            if i > 0 {
                assert(walk[i] == rest[i - 1]);
            }
        }
    }
}

/// How a CTA-861 extension block reads: byte 1 is the revision, byte 2 the detailed timing
/// offset and byte 3 the flags; the data blocks fill bytes 4 up to that offset exactly, each
/// stored as a header byte (tag in the top three bits, payload length in the low five) and
/// its payload, and each read from its tag and payload as [`law_data_block_fields`] says.
pub proof fn law_cta_fields(block: Seq<u8>, c: Cta861Extension)
    requires
        cta_parse_error(block) is None,
        cta_parsed_from(c, block),
    ensures
        c.revision == block[1],
        c.detailed_timing_offset == block[2],
        c.flags == block[3],
        c.raw_block@ == block,
        4 <= block[2] <= 127,
        ({
            let w = walk_blocks(block, 4, block[2] as int);
            &&& cta_blocks_layout(w) == block.subrange(4, block[2] as int)
            &&& c.data_blocks@.len() == w.len()
            &&& forall|i: int| 0 <= i < w.len() ==> w[i].0 < 8 && w[i].1.len() < 32
                && data_block_parse_error(w[i].0, w[i].1) is None
                && data_block_parsed_from(#[trigger] c.data_blocks@[i], w[i].0, w[i].1)
        }),
{
    let offset = block[2] as int;
    lemma_cta_walk_layout(block, 4, offset);
    lemma_walk_no_error(block, 4, offset);
}

/// Every data block walked without error parses without error.
proof fn lemma_walk_no_error(block: Seq<u8>, cursor: int, offset: int)
    requires
        walk_error(block, cursor, offset) is None,
    ensures
        forall|i: int| 0 <= i < walk_blocks(block, cursor, offset).len() ==> data_block_parse_error(
            (#[trigger] walk_blocks(block, cursor, offset)[i]).0,
            walk_blocks(block, cursor, offset)[i].1,
        ) is None,
    decreases offset - cursor,
{
    if cursor < offset && block_end(block, cursor) <= offset {
        let end = block_end(block, cursor);
        let walk = walk_blocks(block, cursor, offset);
        let rest = walk_blocks(block, end, offset);
        lemma_walk_no_error(block, end, offset);
        assert forall|i: int| 0 <= i < walk.len() implies data_block_parse_error(
            (#[trigger] walk[i]).0,
            walk[i].1,
        ) is None by {
            if i > 0 {
                assert(walk[i] == rest[i - 1]);
            }
        }
    }
}

} // verus!

verus! {

/// After the speaker allocation is set, the first speaker allocation block holds exactly the
/// given bytes; the list grows by one block only when it held no speaker allocation block.
pub proof fn law_speaker_allocation_held(old: Seq<DataBlock>, new: Seq<DataBlock>, bytes: Seq<u8>)
    requires
        speaker_allocation_set(old, new, bytes),
    ensures
        exists|i: int|
            0 <= i < new.len() && (#[trigger] new[i] matches DataBlock::SpeakerAllocation(s) && s.bytes@ == bytes)
                && forall|j: int| 0 <= j < i ==> !(#[trigger] new[j] is SpeakerAllocation),
        (exists|j: int| 0 <= j < old.len() && #[trigger] old[j] is SpeakerAllocation) ==> new.len() == old.len(),
        !(exists|j: int| 0 <= j < old.len() && #[trigger] old[j] is SpeakerAllocation) ==> new.len() == old.len() + 1,
{
    lemma_first_of_kind_from(old, BlockKind::SpeakerAllocation, 0);
    match first_of_kind(old, BlockKind::SpeakerAllocation) {
        Some(i) => {
            assert(new[i] matches DataBlock::SpeakerAllocation(s) && s.bytes@ == bytes);
            assert forall|j: int| 0 <= j < i implies !(#[trigger] new[j] is SpeakerAllocation) by {
                assert(new[j] == old[j]);
                assert(!is_kind(old[j], BlockKind::SpeakerAllocation));
            }
            assert(old[i] is SpeakerAllocation);
        },
        None => {
            let k = new.len() - 1;
            assert(new[k] matches DataBlock::SpeakerAllocation(s) && s.bytes@ == bytes);
            assert forall|j: int| 0 <= j < k implies !(#[trigger] new[j] is SpeakerAllocation) by {
                assert(new[j] == new.drop_last()[j]);
                assert(!is_kind(old[j], BlockKind::SpeakerAllocation));
            }
            assert forall|j: int| 0 <= j < old.len() implies !(#[trigger] old[j] is SpeakerAllocation) by {
                assert(!is_kind(old[j], BlockKind::SpeakerAllocation));
            }
        },
    }
}

} // verus!
