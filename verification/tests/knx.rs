use iridium_proxy::knx::{get_frame_type, parse_tp, AddressType, Frame, FrameType};
use iridium_proxy::knx::FrameType::{DataExtended, DataStandard, PollData};

#[test]
fn t_control() {
    assert_frame_type(&[0b10000000, 0b10111111], &Ok(DataStandard));
    assert_frame_type(&[0b00000000, 0b00111111], &Ok(DataExtended));
    assert_frame_type(&[0b11000000, 0b11111111], &Ok(PollData));
    assert_frame_type_0(0b01000000, &Err("Invalid frame control field: 01000000".to_string()));
    assert_frame_type_0(0b01111111, &Err("Invalid frame control field: 01111111".to_string()));
}

fn assert_frame_type(controls: &[u8], expected: &Result<FrameType, String>) {
    for control in controls {
        assert_frame_type_0(*control, expected);
    }
}

fn assert_frame_type_0(control: u8, expected: &Result<FrameType, String>) {
    assert_eq!(*expected, get_frame_type(&Frame { control }))
}

#[test]
fn every_control_byte_is_classified_by_its_high_bits() {
    for control in 0..=255u8 {
        let expected = match (control & 0x80 != 0, control & 0x40 != 0) {
            (false, false) => Ok(DataExtended),
            (true, false) => Ok(DataStandard),
            (true, true) => Ok(PollData),
            (false, true) => Err(format!("Invalid frame control field: {:08b}", control)),
        };
        assert_eq!(expected, get_frame_type(&Frame { control }));
    }
}

#[test]
fn parse_tp_reads_the_control_byte() {
    let t = parse_tp(&[0xbc, 0x11, 0x02]);
    assert_eq!(t.control, 0xbc);
    assert_eq!(t.source_address.type_, AddressType::Individual);
    assert_eq!((t.source_address.area, t.source_address.line, t.source_address.bus), (0, 0, 0));
}
