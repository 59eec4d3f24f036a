use vstd::prelude::*;

use crate::error::{fails_as, parse_error, EdidError, ErrorView};
use crate::utils::{descriptor_text, encode_descriptor_text, encoded_text, parse_descriptor_text, text_error, BitReader};

verus! {

/// A detailed timing descriptor: the decoded main fields and the 18 bytes it came from.
#[derive(Debug, Clone, PartialEq)]
pub struct DetailedTiming {
    pub pixel_clock_khz: u32,
    pub horizontal_active: u16,
    pub horizontal_blanking: u16,
    pub vertical_active: u16,
    pub vertical_blanking: u16,
    pub raw: [u8; 18],
}

/// A display range limits descriptor and the 18 bytes it came from.
#[derive(Debug, Clone, PartialEq, Eq)]
pub struct RangeLimits {
    pub min_vertical_hz: u8,
    pub max_vertical_hz: u8,
    pub min_horizontal_khz: u8,
    pub max_horizontal_khz: u8,
    pub max_pixel_clock_mhz: u16,
    pub raw: [u8; 18],
}

/// One of the four 18-byte descriptor slots of the base block.
#[derive(Debug, Clone, PartialEq)]
pub enum Descriptor {
    /// An empty 18-byte descriptor slot (`00 00 ... 00`).
    Unused,
    DetailedTiming(DetailedTiming),
    MonitorName(String),
    MonitorSerial(String),
    RangeLimits(RangeLimits),
    Unknown([u8; 18]),
}

/// Every byte of `s` is zero.
pub open spec fn all_zero(s: Seq<u8>) -> bool {
    forall|i: int| 0 <= i < s.len() ==> #[trigger] s[i] == 0
}

/// `d` is what [`parse_descriptor`] makes of the 18 bytes `bytes`.
pub open spec fn descriptor_parsed_from(d: Descriptor, bytes: Seq<u8>) -> bool {
    if all_zero(bytes) {
        d is Unused
    } else if bytes[0] != 0 || bytes[1] != 0 {
        match d {
            Descriptor::DetailedTiming(t) => {
                &&& t.pixel_clock_khz == (bytes[0] + bytes[1] * 256) * 10
                &&& t.horizontal_active == bytes[2] + (bytes[4] / 16) * 256
                &&& t.horizontal_blanking == bytes[3] + (bytes[4] % 16) * 256
                &&& t.vertical_active == bytes[5] + (bytes[7] / 16) * 256
                &&& t.vertical_blanking == bytes[6] + (bytes[7] % 16) * 256
                &&& t.raw@ == bytes
            },
            _ => false,
        }
    } else if bytes[3] == 0xfc {
        match d {
            Descriptor::MonitorName(name) => name@ == descriptor_text(bytes.subrange(5, 18)),
            _ => false,
        }
    } else if bytes[3] == 0xff {
        match d {
            Descriptor::MonitorSerial(serial) => serial@ == descriptor_text(bytes.subrange(5, 18)),
            _ => false,
        }
    } else if bytes[3] == 0xfd {
        match d {
            Descriptor::RangeLimits(r) => {
                &&& r.min_vertical_hz == bytes[5]
                &&& r.max_vertical_hz == bytes[6]
                &&& r.min_horizontal_khz == bytes[7]
                &&& r.max_horizontal_khz == bytes[8]
                &&& r.max_pixel_clock_mhz == bytes[9] * 10
                &&& r.raw@ == bytes
            },
            _ => false,
        }
    } else {
        match d {
            Descriptor::Unknown(raw) => raw@ == bytes,
            _ => false,
        }
    }
}

/// What [`parse_descriptor`] reports for `bytes`, if anything.
pub open spec fn descriptor_parse_error(bytes: Seq<u8>) -> Option<ErrorView> {
    if bytes.len() != 18 {
        Some(ErrorView::Parse("descriptor must be 18 bytes"@))
    } else {
        None
    }
}

/// Reads one 18-byte descriptor.
pub fn parse_descriptor(bytes: &[u8]) -> (r: Result<Descriptor, EdidError>)
    ensures
        fails_as(r, descriptor_parse_error(bytes@)),
        r matches Ok(d) ==> descriptor_parsed_from(d, bytes@),
{
    if bytes.len() != 18 {
        return Err(parse_error("descriptor must be 18 bytes"));
    }
    let mut raw = [0u8; 18];
    let mut zero = true;
    let mut i: usize = 0;
    while i < 18
        invariant
            i <= 18 == bytes@.len(),
            forall|j: int| 0 <= j < i ==> raw@[j] == #[trigger] bytes@[j],
            zero == all_zero(bytes@.take(i as int)),
        decreases 18 - i,
    {
        raw[i] = bytes[i];
        if bytes[i] != 0 {
            zero = false;
            assert(bytes@.take(i + 1)[i as int] != 0);
        } else {
            assert(bytes@.take(i + 1) =~= bytes@.take(i as int).push(0));
        }
        i = i + 1;
    }
    assert(raw@ =~= bytes@);
    assert(bytes@.take(18) =~= bytes@);
    if zero {
        return Ok(Descriptor::Unused);
    }
    if bytes[0] != 0 || bytes[1] != 0 {
        let pixel_clock_khz = (bytes[0] as u32 + bytes[1] as u32 * 256) * 10;
        let horizontal_active = bytes[2] as u16 + BitReader::high_nibble(bytes[4]) as u16 * 256;
        let horizontal_blanking = bytes[3] as u16 + BitReader::low_nibble(bytes[4]) as u16 * 256;
        let vertical_active = bytes[5] as u16 + BitReader::high_nibble(bytes[7]) as u16 * 256;
        let vertical_blanking = bytes[6] as u16 + BitReader::low_nibble(bytes[7]) as u16 * 256;
        return Ok(
            Descriptor::DetailedTiming(
                DetailedTiming {
                    pixel_clock_khz,
                    horizontal_active,
                    horizontal_blanking,
                    vertical_active,
                    vertical_blanking,
                    raw,
                },
            ),
        );
    }
    if bytes[3] == 0xfc {
        Ok(Descriptor::MonitorName(parse_descriptor_text(vstd::slice::slice_subrange(bytes, 5, 18))))
    } else if bytes[3] == 0xff {
        Ok(Descriptor::MonitorSerial(parse_descriptor_text(vstd::slice::slice_subrange(bytes, 5, 18))))
    } else if bytes[3] == 0xfd {
        Ok(
            Descriptor::RangeLimits(
                RangeLimits {
                    min_vertical_hz: bytes[5],
                    max_vertical_hz: bytes[6],
                    min_horizontal_khz: bytes[7],
                    max_horizontal_khz: bytes[8],
                    max_pixel_clock_mhz: bytes[9] as u16 * 10,
                    raw,
                },
            ),
        )
    } else {
        Ok(Descriptor::Unknown(raw))
    }
}

/// The 18 bytes of a text descriptor with tag `tag` holding `text`, or why there are none.
pub open spec fn text_descriptor_bytes(tag: u8, text: Seq<char>) -> Result<Seq<u8>, ErrorView> {
    match text_error(text) {
        Some(e) => Err(e),
        None => Ok(seq![0u8, 0, 0, tag, 0] + encoded_text(text)),
    }
}

/// The 18 bytes [`write_descriptor`] makes of `d`, or the error it reports.
pub open spec fn descriptor_bytes(d: Descriptor) -> Result<Seq<u8>, ErrorView> {
    match d {
        Descriptor::Unused => Ok(Seq::new(18, |i: int| 0u8)),
        Descriptor::DetailedTiming(t) => Ok(t.raw@),
        Descriptor::MonitorName(name) => text_descriptor_bytes(0xfc, name@),
        Descriptor::MonitorSerial(serial) => text_descriptor_bytes(0xff, serial@),
        Descriptor::RangeLimits(r) => Ok(r.raw@),
        Descriptor::Unknown(raw) => Ok(raw@),
    }
}

/// `r` is the outcome `expected` describes for an 18-byte encoding.
pub open spec fn written_as(r: Result<[u8; 18], EdidError>, expected: Result<Seq<u8>, ErrorView>) -> bool {
    match (r, expected) {
        (Ok(a), Ok(s)) => a@ == s,
        (Err(e), Err(x)) => e@ == x,
        _ => false,
    }
}

/// Writes one descriptor as 18 bytes: typed text descriptors are encoded afresh, the others
/// are written from the bytes they hold.
pub fn write_descriptor(descriptor: &Descriptor) -> (r: Result<[u8; 18], EdidError>)
    ensures
        written_as(r, descriptor_bytes(*descriptor)),
{
    match descriptor {
        Descriptor::Unused => {
            let out = [0u8; 18];
            assert(out@ =~= Seq::new(18, |i: int| 0u8));
            Ok(out)
        },
        Descriptor::DetailedTiming(timing) => Ok(timing.raw),
        Descriptor::MonitorName(name) => write_text_descriptor(0xfc, name.as_str()),
        Descriptor::MonitorSerial(serial) => write_text_descriptor(0xff, serial.as_str()),
        Descriptor::RangeLimits(range) => Ok(range.raw),
        Descriptor::Unknown(raw) => Ok(*raw),
    }
}

/// Writes a text descriptor with tag `tag` holding `text`.
pub fn write_text_descriptor(tag: u8, text: &str) -> (r: Result<[u8; 18], EdidError>)
    ensures
        written_as(r, text_descriptor_bytes(tag, text@)),
{
    let mut descriptor = [0u8; 18];
    descriptor[3] = tag;
    let encoded = encode_descriptor_text(text)?;
    let mut i: usize = 0;
    while i < 13
        invariant
            i <= 13,
            encoded@ == encoded_text(text@),
            descriptor@[0] == 0 && descriptor@[1] == 0 && descriptor@[2] == 0,
            descriptor@[3] == tag && descriptor@[4] == 0,
            forall|j: int| 0 <= j < i ==> descriptor@[5 + j] == #[trigger] encoded@[j],
        decreases 13 - i,
    {
        descriptor[5 + i] = encoded[i];
        i = i + 1;
    }
    assert(descriptor@ =~= seq![0u8, 0, 0, tag, 0] + encoded_text(text@));
    Ok(descriptor)
}

} // verus!
