//! KNX twisted-pair telegrams: the frame kind that the control field encodes,
//! and the first reading of a raw telegram.

use vstd::prelude::*;
use crate::text::{binary8, binary8_string};

verus! {

/// A KNX frame, seen through its control field.
#[derive(Debug)]
pub struct Frame {
    pub control: u8,
}

/// The kinds of frame that the two high bits of the control field select.
#[derive(Debug, PartialEq, Eq, Structural, Clone, Copy)]
pub enum FrameType {
    DataExtended,
    DataStandard,
    PollData,
}

/// Bit 7 of the control field.
pub open spec fn bit7(control: u8) -> bool {
    control & 0b10000000u8 != 0
}

/// Bit 6 of the control field.
pub open spec fn bit6(control: u8) -> bool {
    control & 0b01000000u8 != 0
}

/// The frame kind of a control field, `None` when bit 6 is set and bit 7 is
/// clear, which names no kind.
pub open spec fn frame_type_of(control: u8) -> Option<FrameType> {
    if !bit6(control) {
        if bit7(control) {
            Some(FrameType::DataStandard)
        } else {
            Some(FrameType::DataExtended)
        }
    } else if bit7(control) {
        Some(FrameType::PollData)
    } else {
        None
    }
}

/// The message that rejects a control field: its eight bits, most
/// significant first.
pub open spec fn invalid_control_message(control: u8) -> Seq<char> {
    seq!['I', 'n', 'v', 'a', 'l', 'i', 'd', ' ', 'f', 'r', 'a', 'm', 'e', ' ', 'c', 'o', 'n', 't', 'r', 'o', 'l', ' ', 'f', 'i', 'e', 'l', 'd', ':', ' ']
        + binary8(control)
}

/// Classifies a frame by the two high bits of its control field: bit 6
/// clear is a data frame (bit 7 set: standard, clear: extended), both set is
/// a poll-data frame, and bit 6 set with bit 7 clear is refused with a
/// message that shows the field in binary.
pub fn get_frame_type(f: &Frame) -> (res: Result<FrameType, String>)
    ensures
        frame_type_of(f.control) matches Some(t) ==> res == Ok::<FrameType, String>(t),
        frame_type_of(f.control) is None ==> (res matches Err(msg) && msg@
            == invalid_control_message(f.control)),
{
    let b7 = f.control & 0b10000000u8;
    let b6 = f.control & 0b01000000u8;
    if b6 != 0 {
        if b7 != 0 {
            return Ok(FrameType::PollData);
        }
    } else {
        return Ok(if b7 != 0 { FrameType::DataStandard } else { FrameType::DataExtended });
    }
    let mut msg = String::new();
    msg.append("Invalid frame control field: ");
    let bits = binary8_string(f.control);
    msg.append(bits.as_str());
    proof {
        reveal_strlit("Invalid frame control field: ");
    }
    assert(msg@ == invalid_control_message(f.control));
    Err(msg)
}

/// A KNX telegram as far as it is read: its control field and its source.
#[derive(Debug)]
pub struct Telegram {
    pub control: u8,
    pub source_address: Address,
}

/// A KNX address: its kind and its area, line and bus-device parts.
#[derive(Debug)]
pub struct Address {
    pub type_: AddressType,
    pub area: u8,
    pub line: u8,
    pub bus: u8,
}

/// Whether an address names one device or a group.
#[derive(Debug, PartialEq, Eq, Structural, Clone, Copy)]
pub enum AddressType {
    Individual,
    Group,
}

/// Reads a twisted-pair telegram: the control field is the first byte; the
/// source address is not read yet and stands as the individual address 0.0.0.
pub fn parse_tp(buff: &[u8]) -> (res: Telegram)
    requires
        buff@.len() >= 1,
    ensures
        res.control == buff@[0],
        res.source_address.type_ == AddressType::Individual,
        res.source_address.area == 0,
        res.source_address.line == 0,
        res.source_address.bus == 0,
{
    Telegram {
        control: buff[0],
        source_address: Address { type_: AddressType::Individual, area: 0, line: 0, bus: 0 },
    }
}

} // verus!
