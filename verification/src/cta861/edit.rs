use vstd::prelude::*;

use crate::base::flag_value;
use crate::error::{fails_as, validation_error, EdidError, ErrorView};
use super::parse::hdmi_oui;
use super::types::{
    Cta861Extension, DataBlock, HdmiVendorBlock, SpeakerAllocationBlock, VendorBlock, VideoBlock,
};

verus! {

/// The kinds of data block the editing methods look for.
#[derive(Clone, Copy, PartialEq, Eq)]
pub enum BlockKind {
    Video,
    SpeakerAllocation,
    HdmiVendor,
}

/// `d` is a data block of kind `kind`.
pub open spec fn is_kind(d: DataBlock, kind: BlockKind) -> bool {
    match kind {
        BlockKind::Video => d is Video,
        BlockKind::SpeakerAllocation => d is SpeakerAllocation,
        BlockKind::HdmiVendor => d matches DataBlock::Vendor(v) && v.oui@ == hdmi_oui(),
    }
}

/// The index of the first block of kind `kind` at or after `i`.
pub open spec fn first_of_kind_from(blocks: Seq<DataBlock>, kind: BlockKind, i: int) -> Option<int>
    decreases blocks.len() - i,
{
    if i < 0 || i >= blocks.len() {
        None
    } else if is_kind(blocks[i], kind) {
        Some(i)
    } else {
        first_of_kind_from(blocks, kind, i + 1)
    }
}

/// The index of the first block of kind `kind`.
pub open spec fn first_of_kind(blocks: Seq<DataBlock>, kind: BlockKind) -> Option<int> {
    first_of_kind_from(blocks, kind, 0)
}

/// Facts about the index [`first_of_kind_from`] finds.
pub proof fn lemma_first_of_kind_from(blocks: Seq<DataBlock>, kind: BlockKind, i: int)
    requires
        0 <= i,
    ensures
        first_of_kind_from(blocks, kind, i) matches Some(k) ==> i <= k < blocks.len() && is_kind(
            blocks[k],
            kind,
        ) && forall|j: int| i <= j < k ==> !is_kind(#[trigger] blocks[j], kind),
        first_of_kind_from(blocks, kind, i) is None ==> forall|j: int|
            i <= j < blocks.len() ==> !is_kind(#[trigger] blocks[j], kind),
    decreases blocks.len() - i,
{
    if i < blocks.len() && !is_kind(blocks[i], kind) {
        lemma_first_of_kind_from(blocks, kind, i + 1);
    }
}

/// The message for a vendor block without HDMI's OUI.
pub open spec fn not_hdmi_message() -> Seq<char> {
    "vendor block is not an HDMI VSDB"@
}

/// The message for a TMDS clock that cannot be stored.
pub open spec fn bad_tmds_message() -> Seq<char> {
    "HDMI max TMDS clock must be in 5 MHz units between 5 and 1275"@
}

/// The message for an extension without an HDMI vendor-specific block.
pub open spec fn no_hdmi_block_message() -> Seq<char> {
    "HDMI vendor-specific block not present"@
}

/// `p` extended with zeros to at least `n` bytes.
pub open spec fn padded(p: Seq<u8>, n: int) -> Seq<u8> {
    if p.len() >= n {
        p
    } else {
        p + Seq::new((n - p.len()) as nat, |i: int| 0u8)
    }
}

/// The clock is a multiple of 5 MHz between 5 and 1275.
pub open spec fn tmds_clock_valid(mhz: u16) -> bool {
    mhz != 0 && mhz % 5 == 0 && mhz <= 1275
}

/// What [`VendorBlock::set_hdmi_max_tmds_clock_mhz`] reports, if anything.
pub open spec fn tmds_error(oui: Seq<u8>, mhz: u16) -> Option<ErrorView> {
    if oui != hdmi_oui() {
        Some(ErrorView::Validation(not_hdmi_message()))
    } else if !tmds_clock_valid(mhz) {
        Some(ErrorView::Validation(bad_tmds_message()))
    } else {
        None
    }
}

/// `new` is `old` with its maximum TMDS clock set to `mhz`: byte 3 of the payload (padded
/// to four bytes) holds `mhz / 5`, and the decoded HDMI fields, if any, record `mhz`.
pub open spec fn tmds_updated(old: VendorBlock, new: VendorBlock, mhz: u16) -> bool {
    &&& new.oui == old.oui
    &&& new.payload@ == padded(old.payload@, 4).update(3, (mhz / 5) as u8)
    &&& new.hdmi == match old.hdmi {
        Some(h) => Some(HdmiVendorBlock { max_tmds_clock_mhz: Some(mhz), ..h }),
        None => None,
    }
}

/// The content type byte: graphics, photo, cinema and game in bits 0 to 3.
pub open spec fn content_types_byte(graphics: bool, photo: bool, cinema: bool, game: bool) -> u8 {
    (flag_value(graphics) + 2 * flag_value(photo) + 4 * flag_value(cinema) + 8 * flag_value(game)) as u8
}

/// `new` is `old` with its content types set: byte 4 of the payload (padded to six bytes)
/// gains the HDMI video present bit, byte 5 holds the content types, and the decoded HDMI
/// fields, if any, record them.
pub open spec fn content_types_updated(
    old: VendorBlock,
    new: VendorBlock,
    graphics: bool,
    photo: bool,
    cinema: bool,
    game: bool,
) -> bool {
    let p = padded(old.payload@, 6);
    &&& new.oui == old.oui
    &&& new.payload@ == p.update(4, p[4] | 0x20).update(5, content_types_byte(graphics, photo, cinema, game))
    &&& new.hdmi == match old.hdmi {
        Some(h) => Some(
            HdmiVendorBlock {
                hdmi_video_present: true,
                cnc_graphics: graphics,
                cnc_photo: photo,
                cnc_cinema: cinema,
                cnc_game: game,
                ..h
            },
        ),
        None => None,
    }
}

/// Appends zeros to `payload` until it has at least `n` bytes.
fn pad_to(payload: &mut Vec<u8>, n: usize)
    ensures
        final(payload)@ == padded(old(payload)@, n as int),
{
    let ghost start = payload@;
    while payload.len() < n
        invariant
            start.len() <= payload@.len(),
            payload@.len() <= start.len() || payload@.len() <= n,
            payload@ == start + Seq::new((payload@.len() - start.len()) as nat, |i: int| 0u8),
        decreases n - payload@.len(),
    {
        payload.push(0);
        assert(payload@ =~= start + Seq::new((payload@.len() - start.len()) as nat, |i: int| 0u8));
    }
    assert(padded(start, n as int) =~= payload@);
}

impl VendorBlock {
    /// Sets the maximum TMDS clock of an HDMI vendor-specific data block.
    pub fn set_hdmi_max_tmds_clock_mhz(&mut self, mhz: u16) -> (r: Result<(), EdidError>)
        ensures
            fails_as(r, tmds_error(old(self).oui@, mhz)),
            r is Ok ==> tmds_updated(*old(self), *final(self), mhz),
            r is Err ==> *final(self) == *old(self),
    {
        if !(self.oui[0] == 0x03 && self.oui[1] == 0x0c && self.oui[2] == 0x00) {
            assert(self.oui@ != hdmi_oui());
            return Err(validation_error("vendor block is not an HDMI VSDB"));
        }
        assert(self.oui@ =~= hdmi_oui());
        if mhz == 0 || mhz % 5 != 0 || mhz > 255 * 5 {
            return Err(
                validation_error("HDMI max TMDS clock must be in 5 MHz units between 5 and 1275"),
            );
        }
        pad_to(&mut self.payload, 4);
        self.payload.set(3, (mhz / 5) as u8);
        match self.hdmi {
            Some(h) => {
                self.hdmi = Some(HdmiVendorBlock { max_tmds_clock_mhz: Some(mhz), ..h });
            },
            None => {},
        }
        Ok(())
    }

    /// Sets the content types of an HDMI vendor-specific data block, marking HDMI video as
    /// present.
    pub fn set_hdmi_content_types(
        &mut self,
        graphics: bool,
        photo: bool,
        cinema: bool,
        game: bool,
    ) -> (r: Result<(), EdidError>)
        ensures
            fails_as(
                r,
                if old(self).oui@ != hdmi_oui() {
                    Some(ErrorView::Validation(not_hdmi_message()))
                } else {
                    None
                },
            ),
            r is Ok ==> content_types_updated(*old(self), *final(self), graphics, photo, cinema, game),
            r is Err ==> *final(self) == *old(self),
    {
        if !(self.oui[0] == 0x03 && self.oui[1] == 0x0c && self.oui[2] == 0x00) {
            assert(self.oui@ != hdmi_oui());
            return Err(validation_error("vendor block is not an HDMI VSDB"));
        }
        assert(self.oui@ =~= hdmi_oui());
        pad_to(&mut self.payload, 6);
        let capabilities = self.payload[4] | 0x20;
        self.payload.set(4, capabilities);
        let mut content_types: u8 = 0;
        if graphics {
            content_types = content_types + 1;
        }
        if photo {
            content_types = content_types + 2;
        }
        if cinema {
            content_types = content_types + 4;
        }
        if game {
            content_types = content_types + 8;
        }
        self.payload.set(5, content_types);
        match self.hdmi {
            Some(h) => {
                self.hdmi = Some(
                    HdmiVendorBlock {
                        hdmi_video_present: true,
                        cnc_graphics: graphics,
                        cnc_photo: photo,
                        cnc_cinema: cinema,
                        cnc_game: game,
                        ..h
                    },
                );
            },
            None => {},
        }
        Ok(())
    }
}

} // verus!

verus! {

/// Every field of `new` other than its data blocks is that of `old`.
pub open spec fn same_header(old: Cta861Extension, new: Cta861Extension) -> bool {
    &&& new.revision == old.revision
    &&& new.detailed_timing_offset == old.detailed_timing_offset
    &&& new.flags == old.flags
    &&& new.raw_block == old.raw_block
}

/// `new` is `old` with the block at `i` replaced and the others kept.
pub open spec fn replaced_at(old: Seq<DataBlock>, new: Seq<DataBlock>, i: int) -> bool {
    &&& new.len() == old.len()
    &&& forall|j: int| 0 <= j < old.len() && j != i ==> #[trigger] new[j] == old[j]
}

/// `new` is `old` after adding `vic` to the first video block, `added` telling whether it was
/// new there; with no video block, a video block holding only `vic` comes first.
pub open spec fn vic_added(old: Seq<DataBlock>, new: Seq<DataBlock>, vic: u8, added: bool) -> bool {
    match first_of_kind(old, BlockKind::Video) {
        Some(i) => old[i] matches DataBlock::Video(v) && if v.vic_codes@.contains(vic) {
            !added && new == old
        } else {
            &&& added
            &&& replaced_at(old, new, i)
            &&& new[i] matches DataBlock::Video(w)
            &&& w.vic_codes@ == v.vic_codes@.push(vic)
        },
        None => {
            &&& added
            &&& new.len() == old.len() + 1
            &&& new[0] matches DataBlock::Video(w)
            &&& w.vic_codes@ == seq![vic]
            &&& new.skip(1) == old
        },
    }
}

/// `new` is `old` after taking every `vic` out of the first video block, `removed` telling
/// whether there was one; with no video block nothing changes.
pub open spec fn vic_removed(old: Seq<DataBlock>, new: Seq<DataBlock>, vic: u8, removed: bool) -> bool {
    match first_of_kind(old, BlockKind::Video) {
        Some(i) => old[i] matches DataBlock::Video(v) && {
            &&& removed == v.vic_codes@.contains(vic)
            &&& replaced_at(old, new, i)
            &&& new[i] matches DataBlock::Video(w)
            &&& w.vic_codes@ == without_vic(v.vic_codes@, vic)
        },
        None => !removed && new == old,
    }
}

/// `new` is `old` with the first speaker allocation block holding `bytes`, or with one
/// holding them appended when there was none.
pub open spec fn speaker_allocation_set(old: Seq<DataBlock>, new: Seq<DataBlock>, bytes: Seq<u8>) -> bool {
    match first_of_kind(old, BlockKind::SpeakerAllocation) {
        Some(i) => {
            &&& replaced_at(old, new, i)
            &&& new[i] matches DataBlock::SpeakerAllocation(s)
            &&& s.bytes@ == bytes
        },
        None => {
            &&& new.len() == old.len() + 1
            &&& new.drop_last() == old
            &&& new.last() matches DataBlock::SpeakerAllocation(s)
            &&& s.bytes@ == bytes
        },
    }
}

/// `new` is `old` with the first HDMI vendor-specific block's TMDS clock set to `mhz`.
pub open spec fn tmds_applied(old: Seq<DataBlock>, new: Seq<DataBlock>, mhz: u16) -> bool {
    match first_of_kind(old, BlockKind::HdmiVendor) {
        Some(i) => replaced_at(old, new, i) && match (old[i], new[i]) {
            (DataBlock::Vendor(v), DataBlock::Vendor(w)) => tmds_updated(v, w, mhz),
            _ => false,
        },
        None => false,
    }
}

/// `new` is `old` with the first HDMI vendor-specific block's content types set.
pub open spec fn content_types_applied(
    old: Seq<DataBlock>,
    new: Seq<DataBlock>,
    graphics: bool,
    photo: bool,
    cinema: bool,
    game: bool,
) -> bool {
    match first_of_kind(old, BlockKind::HdmiVendor) {
        Some(i) => replaced_at(old, new, i) && match (old[i], new[i]) {
            (DataBlock::Vendor(v), DataBlock::Vendor(w)) => content_types_updated(
                v,
                w,
                graphics,
                photo,
                cinema,
                game,
            ),
            _ => false,
        },
        None => false,
    }
}

/// `v` with every occurrence of `vic` taken out.
pub open spec fn without_vic(v: Seq<u8>, vic: u8) -> Seq<u8>
    decreases v.len(),
{
    if v.len() == 0 {
        v
    } else if v.last() == vic {
        without_vic(v.drop_last(), vic)
    } else {
        without_vic(v.drop_last(), vic).push(v.last())
    }
}

/// Taking every occurrence of `vic` out of `v` changes `v` exactly when `v` holds `vic`.
pub proof fn lemma_without_vic_len(v: Seq<u8>, vic: u8)
    ensures
        without_vic(v, vic).len() <= v.len(),
        (without_vic(v, vic).len() == v.len()) == !v.contains(vic),
        !without_vic(v, vic).contains(vic),
    decreases v.len(),
{
    if v.len() > 0 {
        lemma_without_vic_len(v.drop_last(), vic);
        if v.last() == vic {
            assert(v.contains(vic)) by {
                assert(v[v.len() - 1] == vic);
            }
        } else {
            assert(v.contains(vic) == v.drop_last().contains(vic)) by {
                if v.contains(vic) {
                    let k = choose|k: int| 0 <= k < v.len() && v[k] == vic;
                    assert(v.drop_last()[k] == vic);
                }
                if v.drop_last().contains(vic) {
                    let k = choose|k: int| 0 <= k < v.drop_last().len() && v.drop_last()[k] == vic;
                    assert(v[k] == vic);
                }
            }
            let w = without_vic(v.drop_last(), vic);
            assert(!w.push(v.last()).contains(vic)) by {
                if w.push(v.last()).contains(vic) {
                    let k = choose|k: int| 0 <= k < w.push(v.last()).len() && w.push(v.last())[k] == vic;
                    assert(w[k] == vic);
                }
            }
        }
    }
}

impl Cta861Extension {
    /// The index of the first data block of kind `kind`.
    fn find_block(&self, kind: BlockKind) -> (r: Option<usize>)
        ensures
            r matches Some(i) ==> first_of_kind(self.data_blocks@, kind) == Some(i as int),
            r is None ==> first_of_kind(self.data_blocks@, kind) is None,
    {
        let mut i: usize = 0;
        while i < self.data_blocks.len()
            invariant
                i <= self.data_blocks@.len(),
                first_of_kind(self.data_blocks@, kind) == first_of_kind_from(
                    self.data_blocks@,
                    kind,
                    i as int,
                ),
            decreases self.data_blocks@.len() - i,
        {
            let found = match (&self.data_blocks[i], kind) {
                (DataBlock::Video(_), BlockKind::Video) => true,
                (DataBlock::SpeakerAllocation(_), BlockKind::SpeakerAllocation) => true,
                (DataBlock::Vendor(vendor), BlockKind::HdmiVendor) => {
                    let is_hdmi = vendor.oui[0] == 0x03 && vendor.oui[1] == 0x0c && vendor.oui[2]
                        == 0x00;
                    assert(is_hdmi <==> vendor.oui@ =~= hdmi_oui());
                    is_hdmi
                },
                _ => false,
            };
            if found {
                return Some(i);
            }
            i = i + 1;
        }
        None
    }

    /// Adds `vic` to the first video data block, or inserts a video data block holding only
    /// `vic` at the front when there is none. Returns false when the code was already there.
    pub fn add_video_vic(&mut self, vic: u8) -> (added: bool)
        ensures
            same_header(*old(self), *final(self)),
            vic_added(old(self).data_blocks@, final(self).data_blocks@, vic, added),
    {
        proof {
            lemma_first_of_kind_from(self.data_blocks@, BlockKind::Video, 0);
        }
        match self.find_block(BlockKind::Video) {
            Some(i) => {
                let block = self.data_blocks.remove(i);
                match block {
                    DataBlock::Video(mut video) => {
                        let mut present = false;
                        let mut k: usize = 0;
                        while k < video.vic_codes.len()
                            invariant
                                k <= video.vic_codes@.len(),
                                present == video.vic_codes@.take(k as int).contains(vic),
                            decreases video.vic_codes@.len() - k,
                        {
                            proof {
                                let t = video.vic_codes@.take(k + 1);
                                assert(t.drop_last() =~= video.vic_codes@.take(k as int));
                                if t.contains(vic) && !video.vic_codes@.take(k as int).contains(vic) {
                                    let j = choose|j: int| 0 <= j < t.len() && t[j] == vic;
                                    assert(j == k);
                                }
                                if video.vic_codes@.take(k as int).contains(vic) {
                                    let j = choose|j: int| 0 <= j < k && video.vic_codes@.take(k as int)[j] == vic;
                                    assert(t[j] == vic);
                                }
                                if video.vic_codes@[k as int] == vic {
                                    assert(t[k as int] == vic);
                                }
                            }
                            if video.vic_codes[k] == vic {
                                present = true;
                            }
                            k = k + 1;
                        }
                        assert(video.vic_codes@.take(k as int) =~= video.vic_codes@);
                        let added = !present;
                        if added {
                            video.vic_codes.push(vic);
                        }
                        self.data_blocks.insert(i, DataBlock::Video(video));
                        assert(self.data_blocks@ =~= old(self).data_blocks@.update(
                            i as int,
                            DataBlock::Video(video),
                        ));
                        if !added {
                            assert(self.data_blocks@ =~= old(self).data_blocks@);
                        }
                        added
                    },
                    _ => {
                        self.data_blocks.insert(i, block);
                        false
                    },
                }
            },
            None => {
                let mut vic_codes: Vec<u8> = Vec::new();
                vic_codes.push(vic);
                self.data_blocks.insert(0, DataBlock::Video(VideoBlock { vic_codes }));
                assert(self.data_blocks@.skip(1) =~= old(self).data_blocks@);
                true
            },
        }
    }

    /// Takes every occurrence of `vic` out of the first video data block. Returns whether
    /// anything was taken out.
    pub fn remove_video_vic(&mut self, vic: u8) -> (removed: bool)
        ensures
            same_header(*old(self), *final(self)),
            vic_removed(old(self).data_blocks@, final(self).data_blocks@, vic, removed),
    {
        proof {
            lemma_first_of_kind_from(self.data_blocks@, BlockKind::Video, 0);
        }
        match self.find_block(BlockKind::Video) {
            Some(i) => {
                let block = self.data_blocks.remove(i);
                match block {
                    DataBlock::Video(video) => {
                        let len_before = video.vic_codes.len();
                        let mut kept: Vec<u8> = Vec::new();
                        let mut k: usize = 0;
                        while k < len_before
                            invariant
                                k <= len_before == video.vic_codes@.len(),
                                kept@ == without_vic(video.vic_codes@.take(k as int), vic),
                            decreases len_before - k,
                        {
                            assert(video.vic_codes@.take(k + 1).drop_last() =~= video.vic_codes@.take(k as int));
                            if video.vic_codes[k] != vic {
                                kept.push(video.vic_codes[k]);
                            }
                            k = k + 1;
                        }
                        assert(video.vic_codes@.take(k as int) =~= video.vic_codes@);
                        proof {
                            lemma_without_vic_len(video.vic_codes@, vic);
                        }
                        let removed = len_before != kept.len();
                        self.data_blocks.insert(i, DataBlock::Video(VideoBlock { vic_codes: kept }));
                        removed
                    },
                    _ => {
                        self.data_blocks.insert(i, block);
                        false
                    },
                }
            },
            None => false,
        }
    }

    /// Replaces the bytes of the first speaker allocation data block with `bytes`, or appends
    /// a speaker allocation data block holding them when there is none.
    pub fn set_speaker_allocation(&mut self, bytes: &[u8])
        ensures
            same_header(*old(self), *final(self)),
            speaker_allocation_set(old(self).data_blocks@, final(self).data_blocks@, bytes@),
    {
        proof {
            lemma_first_of_kind_from(self.data_blocks@, BlockKind::SpeakerAllocation, 0);
        }
        let block = SpeakerAllocationBlock { bytes: vstd::slice::slice_to_vec(bytes) };
        match self.find_block(BlockKind::SpeakerAllocation) {
            Some(i) => {
                let _ = self.data_blocks.remove(i);
                self.data_blocks.insert(i, DataBlock::SpeakerAllocation(block));
            },
            None => {
                self.data_blocks.push(DataBlock::SpeakerAllocation(block));
                assert(self.data_blocks@.drop_last() =~= old(self).data_blocks@);
            },
        }
    }

    /// Sets the maximum TMDS clock of the first HDMI vendor-specific data block.
    pub fn set_hdmi_max_tmds_clock_mhz(&mut self, mhz: u16) -> (r: Result<(), EdidError>)
        ensures
            same_header(*old(self), *final(self)),
            fails_as(
                r,
                match first_of_kind(old(self).data_blocks@, BlockKind::HdmiVendor) {
                    Some(_) => tmds_error(hdmi_oui(), mhz),
                    None => Some(ErrorView::Validation(no_hdmi_block_message())),
                },
            ),
            r is Err ==> final(self).data_blocks@ == old(self).data_blocks@,
            r is Ok ==> tmds_applied(old(self).data_blocks@, final(self).data_blocks@, mhz),
    {
        proof {
            lemma_first_of_kind_from(self.data_blocks@, BlockKind::HdmiVendor, 0);
        }
        match self.find_block(BlockKind::HdmiVendor) {
            Some(i) => {
                let block = self.data_blocks.remove(i);
                match block {
                    DataBlock::Vendor(mut vendor) => {
                        let r = vendor.set_hdmi_max_tmds_clock_mhz(mhz);
                        self.data_blocks.insert(i, DataBlock::Vendor(vendor));
                        assert(self.data_blocks@ =~= old(self).data_blocks@.update(
                            i as int,
                            DataBlock::Vendor(vendor),
                        ));
                        r
                    },
                    _ => {
                        self.data_blocks.insert(i, block);
                        Err(validation_error("HDMI vendor-specific block not present"))
                    },
                }
            },
            None => Err(validation_error("HDMI vendor-specific block not present")),
        }
    }

    /// Sets the content types of the first HDMI vendor-specific data block.
    pub fn set_hdmi_content_types(
        &mut self,
        graphics: bool,
        photo: bool,
        cinema: bool,
        game: bool,
    ) -> (r: Result<(), EdidError>)
        ensures
            same_header(*old(self), *final(self)),
            fails_as(
                r,
                match first_of_kind(old(self).data_blocks@, BlockKind::HdmiVendor) {
                    Some(_) => None,
                    None => Some(ErrorView::Validation(no_hdmi_block_message())),
                },
            ),
            r is Err ==> final(self).data_blocks@ == old(self).data_blocks@,
            r is Ok ==> content_types_applied(
                old(self).data_blocks@,
                final(self).data_blocks@,
                graphics,
                photo,
                cinema,
                game,
            ),
    {
        proof {
            lemma_first_of_kind_from(self.data_blocks@, BlockKind::HdmiVendor, 0);
        }
        match self.find_block(BlockKind::HdmiVendor) {
            Some(i) => {
                let block = self.data_blocks.remove(i);
                match block {
                    DataBlock::Vendor(mut vendor) => {
                        let r = vendor.set_hdmi_content_types(graphics, photo, cinema, game);
                        self.data_blocks.insert(i, DataBlock::Vendor(vendor));
                        assert(self.data_blocks@ =~= old(self).data_blocks@.update(
                            i as int,
                            DataBlock::Vendor(vendor),
                        ));
                        r
                    },
                    _ => {
                        self.data_blocks.insert(i, block);
                        Err(validation_error("HDMI vendor-specific block not present"))
                    },
                }
            },
            None => Err(validation_error("HDMI vendor-specific block not present")),
        }
    }
}

} // verus!
