use vstd::prelude::*;

use crate::base::{
    descriptor_canonical, same_descriptor, text_reads_back, BaseBlock, Descriptor,
    base_block_bytes, base_body, base_body_byte, base_canonical, lemma_base_block_round_trip,
    lemma_base_reads_back, lemma_base_written_parses, same_base_content,
};
use crate::cta861::{
    blocks_encoding, cta_block_bytes, cta_body, data_block_canonical, lemma_cta_reads_back,
    lemma_cta_round_trip, lemma_cta_written_parses, same_data_block,
};
use crate::displayid::{displayid_parse_error, displayid_parsed_from};
use crate::utils::{checksum_ok, edid_header, header_ok, lemma_sealed, sealed};
use super::document::{
    extension_raw, first_monitor_name, first_monitor_name_from, monitor_name_error,
    monitor_name_replaced, Edid,
    ExtensionBlock,
};
use super::parse::{
    block_of, edid_parse_error, edid_parsed_from, extension_blocks, extension_parse_error,
    extension_parsed_from, extensions_error_from,
};
use super::write::{edid_bytes, extension_bytes, extensions_bytes};

verus! {

/// No error from extension `k` on means no error at any extension from `k` on.
proof fn lemma_no_extension_error(data: Seq<u8>, k: int, n: int, j: int)
    requires
        0 <= k <= j < n,
        extensions_error_from(data, k, n) is None,
    ensures
        extension_parse_error(block_of(data, j + 1), j + 1) is None,
    decreases j - k,
{
    if k < j {
        lemma_no_extension_error(data, k + 1, n, j);
    }
}

/// An extension block read from a 128-byte block is written back as that block.
proof fn lemma_extension_round_trip(x: ExtensionBlock, block: Seq<u8>, index: int)
    requires
        block.len() == 128,
        extension_parse_error(block, index) is None,
        extension_parsed_from(x, block),
    ensures
        extension_bytes(x) == block,
{
    lemma_sealed(block);
    match x {
        ExtensionBlock::Cta861(c) => {
            lemma_cta_round_trip(c, block);
        },
        _ => {},
    }
}

/// The first `k` extension blocks read from `data` are written back as the bytes they came
/// from.
proof fn lemma_extensions_prefix_round_trip(data: Seq<u8>, e: Edid, k: int)
    requires
        edid_parse_error(data) is None,
        edid_parsed_from(e, data),
        0 <= k <= extension_blocks(data),
    ensures
        extensions_bytes(e.extensions@.take(k)) == data.subrange(128, 128 * (k + 1)),
    decreases k,
{
    let n = extension_blocks(data);
    let xs = e.extensions@;
    lemma_parse_ok_shape(data);
    if k == 0 {
        assert(xs.take(0) =~= seq![]);
        assert(data.subrange(128, 128) =~= seq![]);
    } else {
        lemma_extensions_prefix_round_trip(data, e, k - 1);
        lemma_no_extension_error(data, 0, n, k - 1);
        let block = block_of(data, k);
        assert(extension_parsed_from(xs[k - 1], block_of(data, k)));
        lemma_extension_round_trip(xs[k - 1], block, k);
        assert(xs.take(k).drop_last() =~= xs.take(k - 1));
        assert(xs.take(k).last() == xs[k - 1]);
        assert(data.subrange(128, 128 * k) + block =~= data.subrange(128, 128 * (k + 1)));
    }
}

/// What a successful read of `data` establishes about its shape.
pub proof fn lemma_parse_ok_shape(data: Seq<u8>)
    requires
        edid_parse_error(data) is None,
    ensures
        data.len() == 128 * (extension_blocks(data) + 1),
        extension_blocks(data) >= 0,
        crate::utils::header_ok(data),
        crate::base::base_parse_error(data.take(128)) is None,
        data[126] == extension_blocks(data),
        extensions_error_from(data, 0, extension_blocks(data)) is None,
{
    let len = data.len() as int;
    assert(len == 128 * (len / 128)) by (nonlinear_arith)
        requires
            len % 128 == 0,
    ;
}

/// Reading an EDID and writing it back, with no edit in between, gives the very same bytes.
pub proof fn law_parse_then_write_is_identity(data: Seq<u8>, e: Edid)
    requires
        edid_parse_error(data) is None,
        edid_parsed_from(e, data),
    ensures
        edid_bytes(e) == data,
{
    let n = extension_blocks(data);
    lemma_parse_ok_shape(data);
    let head = data.take(128);
    let tail = data.subrange(128, 128 * (n + 1));
    assert(crate::base::base_parsed_from(e.base, head));
    lemma_base_block_round_trip(e.base, head);
    lemma_extensions_prefix_round_trip(data, e, n);
    assert(e.extensions@.take(n) =~= e.extensions@);
    assert(head + tail =~= data);
}

} // verus!

verus! {

/// An extension block that reads back as itself from the bytes written for it: CTA-861
/// blocks whose data blocks are canonical and can be encoded, and DisplayID or unknown blocks
/// whose held bytes are a sound 128-byte block of their kind that reads as they are.
pub open spec fn extension_canonical(x: ExtensionBlock) -> bool {
    match x {
        ExtensionBlock::Cta861(c) => {
            &&& cta_block_bytes(c) is Ok
            &&& forall|i: int|
                0 <= i < c.data_blocks@.len() ==> data_block_canonical(#[trigger] c.data_blocks@[i])
        },
        ExtensionBlock::DisplayId(d) => {
            &&& d.raw_block@.len() == 128
            &&& checksum_ok(d.raw_block@)
            &&& d.raw_block@[0] == 0x70
            &&& displayid_parse_error(d.raw_block@) is None
            &&& displayid_parsed_from(d, d.raw_block@)
        },
        ExtensionBlock::Unknown(bytes) => {
            &&& bytes@.len() == 128
            &&& checksum_ok(bytes@)
            &&& bytes@[0] != 0x02
            &&& bytes@[0] != 0x70
        },
    }
}

/// An EDID whose typed content reads back from the bytes written for it: a canonical base
/// block whose held bytes start with the EDID header, an extension count that matches the
/// extension blocks, and canonical extension blocks.
pub open spec fn edid_canonical(e: Edid) -> bool {
    &&& base_canonical(e.base)
    &&& header_ok(e.base.raw_block@)
    &&& e.base.extension_count == e.extensions@.len()
    &&& forall|k: int| 0 <= k < e.extensions@.len() ==> extension_canonical(#[trigger] e.extensions@[k])
}

/// `a` and `b` hold the same extension content.
pub open spec fn same_extension(a: ExtensionBlock, b: ExtensionBlock) -> bool {
    match (a, b) {
        (ExtensionBlock::Cta861(x), ExtensionBlock::Cta861(y)) => {
            &&& x.revision == y.revision
            &&& x.flags == y.flags
            &&& x.data_blocks@.len() == y.data_blocks@.len()
            &&& forall|i: int| 0 <= i < x.data_blocks@.len() ==> same_data_block(#[trigger] x.data_blocks@[i], y.data_blocks@[i])
        },
        (ExtensionBlock::DisplayId(x), ExtensionBlock::DisplayId(y)) => y.raw_block@ == x.raw_block@
            && displayid_parsed_from(y, x.raw_block@),
        (ExtensionBlock::Unknown(x), ExtensionBlock::Unknown(y)) => x@ == y@,
        _ => false,
    }
}

/// The bytes written for an extension block whose held bytes are a 128-byte block form a
/// 128-byte block with a sound checksum.
proof fn lemma_extension_written_sealed(x: ExtensionBlock)
    requires
        extension_raw(x).len() == 128,
    ensures
        extension_bytes(x).len() == 128,
        checksum_ok(extension_bytes(x)),
{
    lemma_sealed(extension_raw(x));
    if let ExtensionBlock::Cta861(c) = x {
        if cta_block_bytes(c) is Ok {
            let body = cta_body(c, blocks_encoding(c.data_blocks@)->Ok_0);
            crate::utils::lemma_checksum_byte_fixes(body);
        }
    }
}

/// The bytes written for a canonical extension block are a sound 128-byte block that reads
/// without error at any position.
proof fn lemma_extension_written_parses(x: ExtensionBlock, index: int)
    requires
        extension_canonical(x),
    ensures
        extension_bytes(x).len() == 128,
        extension_parse_error(extension_bytes(x), index) is None,
{
    match x {
        ExtensionBlock::Cta861(c) => {
            lemma_cta_written_parses(c, extension_bytes(x));
        },
        _ => {
            lemma_sealed(extension_raw(x));
        },
    }
}

/// A canonical extension block reads back from the bytes written for it.
proof fn lemma_extension_reads_back(x: ExtensionBlock, y: ExtensionBlock)
    requires
        extension_canonical(x),
        extension_parsed_from(y, extension_bytes(x)),
    ensures
        same_extension(x, y),
{
    match x {
        ExtensionBlock::Cta861(c) => {
            lemma_cta_written_parses(c, extension_bytes(x));
            if let ExtensionBlock::Cta861(c2) = y {
                lemma_cta_reads_back(c, extension_bytes(x), c2);
            }
        },
        _ => {
            lemma_sealed(extension_raw(x));
        },
    }
}

/// Written extension blocks of 128 bytes each follow one another: block `k` holds the bytes
/// written for extension `k`.
proof fn lemma_extensions_layout(xs: Seq<ExtensionBlock>)
    requires
        forall|k: int| 0 <= k < xs.len() ==> (#[trigger] extension_bytes(xs[k])).len() == 128,
    ensures
        extensions_bytes(xs).len() == 128 * xs.len(),
        forall|k: int|
            0 <= k < xs.len() ==> extensions_bytes(xs).subrange(128 * k, 128 * k + 128)
                == extension_bytes(#[trigger] xs[k]),
    decreases xs.len(),
{
    if xs.len() > 0 {
        let front = xs.drop_last();
        assert forall|k: int| 0 <= k < front.len() implies (#[trigger] extension_bytes(front[k])).len() == 128 by {
            assert(front[k] == xs[k]);
        }
        lemma_extensions_layout(front);
        let all = extensions_bytes(xs);
        let prefix = extensions_bytes(front);
        assert(extension_bytes(xs[xs.len() - 1]).len() == 128);
        assert forall|k: int| 0 <= k < xs.len() implies all.subrange(128 * k, 128 * k + 128)
            == extension_bytes(#[trigger] xs[k]) by {
            if k < xs.len() - 1 {
                assert(front[k] == xs[k]);
                assert(all.subrange(128 * k, 128 * k + 128) =~= prefix.subrange(128 * k, 128 * k + 128));
            } else {
                assert(all.subrange(128 * k, 128 * k + 128) =~= extension_bytes(xs.last()));
            }
        }
    }
}

/// With no error at any extension from `j` on, the walk over extensions from `j` reports none.
proof fn lemma_extensions_error_none(data: Seq<u8>, j: int, n: int)
    requires
        0 <= j <= n,
        forall|k: int| j <= k < n ==> (#[trigger] extension_parse_error(block_of(data, k + 1), k + 1)) is None,
    ensures
        extensions_error_from(data, j, n) is None,
    decreases n - j,
{
    if j < n {
        assert(extension_parse_error(block_of(data, j + 1), j + 1) is None);
        lemma_extensions_error_none(data, j + 1, n);
    }
}

/// Every block written for an EDID whose held extension bytes are 128-byte blocks is a
/// 128-byte block with a sound checksum: checksums are recomputed on write.
pub proof fn law_written_blocks_have_sound_checksums(e: Edid)
    requires
        forall|k: int| 0 <= k < e.extensions@.len() ==> (#[trigger] extension_raw(e.extensions@[k])).len() == 128,
    ensures
        edid_bytes(e).len() == 128 * (e.extensions@.len() + 1),
        forall|k: int| 0 <= k <= e.extensions@.len() ==> checksum_ok(#[trigger] block_of(edid_bytes(e), k)),
{
    let xs = e.extensions@;
    let out = edid_bytes(e);
    let base = base_block_bytes(e.base);
    crate::utils::lemma_checksum_byte_fixes(base_body(e.base));
    assert forall|k: int| 0 <= k < xs.len() implies (#[trigger] extension_bytes(xs[k])).len() == 128 by {
        lemma_extension_written_sealed(xs[k]);
    }
    lemma_extensions_layout(xs);
    let rest = extensions_bytes(xs);
    assert forall|k: int| 0 <= k <= xs.len() implies checksum_ok(#[trigger] block_of(out, k)) by {
        if k == 0 {
            assert(block_of(out, 0) =~= base);
        } else {
            lemma_extension_written_sealed(xs[k - 1]);
            assert(block_of(out, k) =~= rest.subrange(128 * (k - 1), 128 * (k - 1) + 128));
        }
    }
}

/// A CTA-861 block whose typed data cannot be encoded does not stop the write: its block is
/// written from the bytes it was read from (with a fresh checksum), and every other block is
/// written as usual.
pub proof fn law_unencodable_cta_block_is_written_from_its_bytes(e: Edid, k: int)
    requires
        forall|j: int| 0 <= j < e.extensions@.len() ==> (#[trigger] extension_raw(e.extensions@[j])).len() == 128,
        0 <= k < e.extensions@.len(),
        e.extensions@[k] matches ExtensionBlock::Cta861(c) && cta_block_bytes(c) is Err,
    ensures
        edid_bytes(e).len() == 128 * (e.extensions@.len() + 1),
        block_of(edid_bytes(e), k + 1) == sealed(extension_raw(e.extensions@[k])),
        checksum_ok(extension_raw(e.extensions@[k])) ==> block_of(edid_bytes(e), k + 1)
            == extension_raw(e.extensions@[k]),
{
    let xs = e.extensions@;
    let rest = extensions_bytes(xs);
    assert forall|j: int| 0 <= j < xs.len() implies (#[trigger] extension_bytes(xs[j])).len() == 128 by {
        lemma_extension_written_sealed(xs[j]);
    }
    lemma_extensions_layout(xs);
    assert(block_of(edid_bytes(e), k + 1) =~= rest.subrange(128 * k, 128 * k + 128));
    lemma_sealed(extension_raw(xs[k]));
}

/// The bytes written for a canonical EDID read without error.
pub proof fn lemma_written_edid_parses(e: Edid)
    requires
        edid_canonical(e),
    ensures
        edid_parse_error(edid_bytes(e)) is None,
        edid_bytes(e).take(128) == base_block_bytes(e.base),
        extension_blocks(edid_bytes(e)) == e.extensions@.len(),
        forall|k: int| 0 <= k < e.extensions@.len() ==> block_of(edid_bytes(e), k + 1)
            == extension_bytes(#[trigger] e.extensions@[k]),
{
    let out = edid_bytes(e);
    let xs = e.extensions@;
    let n = xs.len() as int;
    let base = base_block_bytes(e.base);
    let rest = extensions_bytes(xs);
    lemma_base_written_parses(e.base);
    assert forall|k: int| 0 <= k < xs.len() implies (#[trigger] extension_bytes(xs[k])).len() == 128 by {
        lemma_extension_written_parses(xs[k], 0);
    }
    lemma_extensions_layout(xs);
    assert(out.len() == 128 * (n + 1));
    assert(out.len() / 128 == n + 1) by (nonlinear_arith)
        requires
            out.len() == 128 * (n + 1),
    ;
    assert(out.take(128) =~= base);
    assert forall|i: int| 0 <= i < 8 implies #[trigger] out.take(8)[i] == edid_header()[i] by {
        assert(out[i] == base[i]);
        assert(base[i] == base_body_byte(e.base, i));
        assert(e.base.raw_block@.take(8)[i] == edid_header()[i]);
    }
    assert(out.take(8) =~= edid_header());
    assert(out[126] == base[126]);
    assert(base[126] == base_body_byte(e.base, 126));
    assert forall|k: int| 0 <= k < n implies block_of(out, k + 1) == extension_bytes(#[trigger] xs[k]) by {
        assert(block_of(out, k + 1) =~= rest.subrange(128 * k, 128 * k + 128));
    }
    assert forall|k: int| 0 <= k < n implies (#[trigger] extension_parse_error(block_of(out, k + 1), k + 1)) is None by {
        lemma_extension_written_parses(xs[k], k + 1);
    }
    lemma_extensions_error_none(out, 0, n);
}

/// Writing an EDID and reading the bytes back gives the same typed content, whenever that
/// content is in the form reading produces ([`edid_canonical`]); the bytes always read
/// without error ([`lemma_written_edid_parses`]).
pub proof fn law_write_then_read_gives_back_content(e: Edid, out: Seq<u8>, e2: Edid)
    requires
        edid_bytes(e) == out,
        edid_canonical(e),
        edid_parsed_from(e2, out),
    ensures
        edid_parse_error(out) is None,
        same_base_content(e.base, e2.base),
        e2.extensions@.len() == e.extensions@.len(),
        forall|k: int| 0 <= k < e.extensions@.len() ==> same_extension(#[trigger] e.extensions@[k], e2.extensions@[k]),
{
    lemma_written_edid_parses(e);
    lemma_base_reads_back(e.base, e2.base);
    assert forall|k: int| 0 <= k < e.extensions@.len() implies same_extension(#[trigger] e.extensions@[k], e2.extensions@[k]) by {
        assert(extension_parsed_from(e2.extensions@[k], block_of(out, k + 1)));
        lemma_extension_reads_back(e.extensions@[k], e2.extensions@[k]);
    }
}

} // verus!

verus! {

/// Bytes that read without error are a whole number of 128-byte blocks after the EDID header,
/// every block has a sound checksum, and the extension count matches the blocks.
pub proof fn law_read_bytes_are_sound(data: Seq<u8>)
    requires
        edid_parse_error(data) is None,
    ensures
        data.len() % 128 == 0,
        data.len() >= 128,
        header_ok(data),
        data[126] == extension_blocks(data),
        forall|k: int| 0 <= k <= extension_blocks(data) ==> checksum_ok(#[trigger] block_of(data, k)),
{
    lemma_parse_ok_shape(data);
    let n = extension_blocks(data);
    assert forall|k: int| 0 <= k <= n implies checksum_ok(#[trigger] block_of(data, k)) by {
        if k == 0 {
            assert(block_of(data, 0) =~= data.take(128));
        } else {
            lemma_no_extension_error(data, 0, n, k - 1);
        }
    }
}

/// A new product code is read back from the bytes written after setting it.
pub proof fn law_product_code_reads_back(before: Edid, after: Edid, code: u16, out: Seq<u8>, e2: Edid)
    requires
        edid_canonical(before),
        after.raw == before.raw,
        after.extensions == before.extensions,
        after.base == (BaseBlock { product_code: code, ..before.base }),
        edid_bytes(after) == out,
        edid_parsed_from(e2, out),
    ensures
        edid_parse_error(out) is None,
        e2.base.product_code == code,
{
    law_write_then_read_gives_back_content(after, out, e2);
}

/// Lists of descriptors that hold the same descriptors find their first monitor name at the
/// same place.
proof fn lemma_first_monitor_name_same(a: Seq<Descriptor>, b: Seq<Descriptor>, j: int)
    requires
        0 <= j <= a.len(),
        a.len() == b.len(),
        forall|k: int| 0 <= k < a.len() ==> same_descriptor(#[trigger] a[k], b[k]),
    ensures
        first_monitor_name_from(a, j) == first_monitor_name_from(b, j),
    decreases a.len() - j,
{
    if j < a.len() {
        assert(same_descriptor(a[j], b[j]));
        lemma_first_monitor_name_same(a, b, j + 1);
    }
}

/// The first monitor name found from `j` lies at or after `j` and holds a monitor name.
proof fn lemma_first_monitor_name_found(a: Seq<Descriptor>, j: int)
    requires
        0 <= j,
    ensures
        first_monitor_name_from(a, j) matches Some(i) ==> j <= i < a.len() && a[i] is MonitorName
            && forall|k: int| j <= k < i ==> !(#[trigger] a[k] is MonitorName),
    decreases a.len() - j,
{
    if j < a.len() && !(a[j] is MonitorName) {
        lemma_first_monitor_name_found(a, j + 1);
    }
}

/// Lists that agree before `i` and both hold a monitor name at `i` first find one there.
proof fn lemma_first_monitor_name_at(a: Seq<Descriptor>, b: Seq<Descriptor>, j: int, i: int)
    requires
        0 <= j <= i < a.len(),
        i < b.len(),
        forall|k: int| j <= k < i ==> !(#[trigger] a[k] is MonitorName),
        forall|k: int| j <= k < i ==> #[trigger] b[k] == a[k],
        b[i] is MonitorName,
    ensures
        first_monitor_name_from(b, j) == Some(i),
    decreases i - j,
{
    if j < i {
        assert(b[j] == a[j]);
        lemma_first_monitor_name_at(a, b, j + 1, i);
    }
}

/// A new monitor name that reads back from its encoding is read back from the bytes written
/// after setting it, in the first monitor name descriptor.
pub proof fn law_monitor_name_reads_back(before: Edid, after: Edid, name: Seq<char>, out: Seq<u8>, e2: Edid)
    requires
        edid_canonical(before),
        monitor_name_replaced(before, after, name),
        text_reads_back(name),
        edid_bytes(after) == out,
        edid_parsed_from(e2, out),
    ensures
        edid_parse_error(out) is None,
        first_monitor_name(e2.base.descriptors@) == first_monitor_name(before.base.descriptors@),
        first_monitor_name(e2.base.descriptors@) matches Some(i) && e2.base.descriptors@[i] matches Descriptor::MonitorName(s)
            && s@ == name,
{
    let i = first_monitor_name(before.base.descriptors@)->Some_0;
    let od = before.base.descriptors@;
    let nd = after.base.descriptors@;
    lemma_first_monitor_name_found(od, 0);
    assert(edid_canonical(after)) by {
        assert forall|k: int| 0 <= k < 4 implies descriptor_canonical(#[trigger] nd[k]) by {
            if k != i {
                assert(nd[k] == od[k]);
            }
        }
    }
    law_write_then_read_gives_back_content(after, out, e2);
    lemma_first_monitor_name_at(od, nd, 0, i);
    lemma_first_monitor_name_same(nd, e2.base.descriptors@, 0);
}

} // verus!

verus! {

/// A list that holds a monitor name at `j` finds a first one at or before `j`.
proof fn lemma_first_monitor_name_exists(ds: Seq<Descriptor>, k: int, j: int)
    requires
        0 <= k <= j < ds.len(),
        ds[j] is MonitorName,
    ensures
        first_monitor_name_from(ds, k) is Some,
    decreases j - k,
{
    if !(ds[k] is MonitorName) {
        lemma_first_monitor_name_exists(ds, k + 1, j);
    }
}

/// Setting the monitor name is refused exactly when the name holds a character outside
/// ASCII, is longer than 13 characters, or the descriptors hold no monitor name; any ASCII
/// name of at most 13 characters is accepted when a monitor name descriptor is present.
pub proof fn law_monitor_name_accepted(ds: Seq<Descriptor>, name: Seq<char>)
    ensures
        monitor_name_error(ds, name) is None <==> (
            (forall|j: int| 0 <= j < name.len() ==> '\0' <= #[trigger] name[j] <= '\u{7f}')
            && name.len() <= 13
            && exists|j: int| 0 <= j < ds.len() && (#[trigger] ds[j]) is MonitorName),
{
    if exists|j: int| 0 <= j < ds.len() && (#[trigger] ds[j]) is MonitorName {
        let j = choose|j: int| 0 <= j < ds.len() && (#[trigger] ds[j]) is MonitorName;
        lemma_first_monitor_name_exists(ds, 0, j);
    }
    if first_monitor_name(ds) is Some {
        lemma_first_monitor_name_found(ds, 0);
        let i = first_monitor_name(ds)->Some_0;
        assert(ds[i] is MonitorName);
    }
}

} // verus!
