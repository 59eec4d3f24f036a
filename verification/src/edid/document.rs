use vstd::prelude::*;

use crate::base::{BaseBlock, Descriptor};
use crate::error::{fails_as, validation_error, EdidError, ErrorView};
use crate::utils::{text_error, validate_descriptor_text};
use super::parse::{edid_parse_error, edid_parsed_from, parse_edid};
use super::write::{edid_bytes, write_edid};
use crate::cta861::Cta861Extension;
use crate::displayid::DisplayIdExtension;

verus! {

/// One extension block: typed when its kind is known, its bytes otherwise.
#[derive(Debug, Clone, PartialEq)]
pub enum ExtensionBlock {
    Cta861(Cta861Extension),
    DisplayId(DisplayIdExtension),
    Unknown(Vec<u8>),
}

/// A parsed EDID: the bytes it was read from, the base block and the extension blocks.
#[derive(Debug, Clone, PartialEq)]
pub struct Edid {
    pub raw: Vec<u8>,
    pub base: BaseBlock,
    pub extensions: Vec<ExtensionBlock>,
}

/// The bytes an extension block was read from.
pub open spec fn extension_raw(x: ExtensionBlock) -> Seq<u8> {
    match x {
        ExtensionBlock::Cta861(c) => c.raw_block@,
        ExtensionBlock::DisplayId(d) => d.raw_block@,
        ExtensionBlock::Unknown(bytes) => bytes@,
    }
}

/// The index of the first monitor name descriptor at or after `i`.
pub open spec fn first_monitor_name_from(ds: Seq<Descriptor>, i: int) -> Option<int>
    decreases ds.len() - i,
{
    if i < 0 || i >= ds.len() {
        None
    } else if ds[i] is MonitorName {
        Some(i)
    } else {
        first_monitor_name_from(ds, i + 1)
    }
}

/// The index of the first monitor name descriptor.
pub open spec fn first_monitor_name(ds: Seq<Descriptor>) -> Option<int> {
    first_monitor_name_from(ds, 0)
}

/// What [`Edid::set_monitor_name`] reports, if anything.
pub open spec fn monitor_name_error(ds: Seq<Descriptor>, name: Seq<char>) -> Option<ErrorView> {
    if text_error(name) is Some {
        text_error(name)
    } else if first_monitor_name(ds) is None {
        Some(ErrorView::Validation("monitor name descriptor not present"@))
    } else {
        None
    }
}

/// `new` is `old` with the first monitor name replaced by `name` and nothing else changed.
pub open spec fn monitor_name_replaced(old: Edid, new: Edid, name: Seq<char>) -> bool {
    match first_monitor_name(old.base.descriptors@) {
        Some(i) => {
            &&& new.raw == old.raw
            &&& new.extensions == old.extensions
            &&& new.base.descriptors@.len() == old.base.descriptors@.len()
            &&& forall|j: int|
                0 <= j < old.base.descriptors@.len() && j != i ==> #[trigger] new.base.descriptors@[j]
                    == old.base.descriptors@[j]
            &&& new.base.descriptors@[i] matches Descriptor::MonitorName(s) && s@ == name
            &&& new.base == BaseBlock { descriptors: new.base.descriptors, ..old.base }
        },
        None => false,
    }
}

impl Edid {
    /// Reads a complete EDID.
    pub fn parse(data: &[u8]) -> (r: Result<Edid, EdidError>)
        ensures
            fails_as(r, edid_parse_error(data@)),
            r matches Ok(e) ==> edid_parsed_from(e, data@),
    {
        parse_edid(data)
    }

    /// Writes this EDID as bytes (see [`write_edid`]).
    pub fn to_bytes(&self) -> (r: Vec<u8>)
        ensures
            r@ == edid_bytes(*self),
    {
        write_edid(self)
    }

    /// Sets the product code of the base block.
    pub fn set_product_code(&mut self, code: u16)
        ensures
            final(self).raw == old(self).raw,
            final(self).extensions == old(self).extensions,
            final(self).base == (BaseBlock { product_code: code, ..old(self).base }),
    {
        self.base.product_code = code;
    }

    /// Replaces the first monitor name descriptor's text with `name`.
    pub fn set_monitor_name(&mut self, name: &str) -> (r: Result<(), EdidError>)
        ensures
            fails_as(r, monitor_name_error(old(self).base.descriptors@, name@)),
            r is Ok ==> monitor_name_replaced(*old(self), *final(self), name@),
            r is Err ==> *final(self) == *old(self),
    {
        validate_descriptor_text(name)?;
        let mut i: usize = 0;
        while i < self.base.descriptors.len()
            invariant
                i <= self.base.descriptors@.len(),
                *self == *old(self),
                text_error(name@) is None,
                first_monitor_name(self.base.descriptors@) == first_monitor_name_from(
                    self.base.descriptors@,
                    i as int,
                ),
            decreases self.base.descriptors@.len() - i,
        {
            if let Descriptor::MonitorName(_) = &self.base.descriptors[i] {
                let _ = self.base.descriptors.remove(i);
                self.base.descriptors.insert(i, Descriptor::MonitorName(name.to_owned()));
                return Ok(());
            }
            i = i + 1;
        }
        Err(validation_error("monitor name descriptor not present"))
    }
}

impl ExtensionBlock {
    /// The bytes this extension block was read from.
    pub fn raw_bytes(&self) -> (r: &[u8])
        ensures
            r@ == extension_raw(*self),
    {
        match self {
            ExtensionBlock::Cta861(cta) => cta.raw_block.as_slice(),
            ExtensionBlock::DisplayId(display_id) => display_id.raw_block.as_slice(),
            ExtensionBlock::Unknown(bytes) => bytes.as_slice(),
        }
    }
}

} // verus!
