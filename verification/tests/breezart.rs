use iridium_proxy::text::chars_of;
use iridium_proxy::breezart::{
    get_all_values, parse_hex_capture, parse_vst07, send_set, status_request, BreezartValues, Parameter,
    SetOutcome, Vst07,
};

fn pair(a: &str, b: &str) -> (String, String) {
    (a.to_string(), b.to_string())
}

#[test]
fn parameter_names() {
    assert_eq!(iridium_proxy::breezart::format(&Parameter::PwrBtnState), "Breezart.PwrBtnState");
    assert_eq!(iridium_proxy::breezart::format(&Parameter::UnitState), "Breezart.UnitState");
    assert_eq!(iridium_proxy::breezart::format(&Parameter::Tempr), "Breezart.Tempr");
    assert_eq!(iridium_proxy::breezart::format(&Parameter::SpeedTarget), "Breezart.SpeedTarget");
    assert_eq!(iridium_proxy::breezart::format(&Parameter::SpeedFact), "Breezart.SpeedFact");
}

#[test]
fn store_broadcasts_new_and_changed_values_only() {
    let mut v = BreezartValues::new();
    assert_eq!(v.store_value(&Parameter::Tempr, "21".to_string()), Some(pair("Breezart.Tempr", "21")));
    assert_eq!(v.store_value(&Parameter::Tempr, "21".to_string()), None);
    assert_eq!(v.store_value(&Parameter::Tempr, "22".to_string()), Some(pair("Breezart.Tempr", "22")));
    assert_eq!(get_all_values(&v), vec![pair("Breezart.Tempr", "22")]);
}

#[test]
fn polling_timeouts_follow_the_intensity() {
    let mut v = BreezartValues::new();
    // one short poll after start, then long ones
    assert_eq!(v.next_recv_timeout(), 500);
    assert_eq!(v.next_recv_timeout(), 30000);
    assert_eq!(v.next_recv_timeout(), 30000);
    // a first value does not speed polling up
    v.store_value(&Parameter::UnitState, "1".to_string());
    assert_eq!(v.next_recv_timeout(), 30000);
    // a changed value gives thirty short polls
    v.store_value(&Parameter::UnitState, "2".to_string());
    for _ in 0..30 {
        assert_eq!(v.next_recv_timeout(), 500);
    }
    assert_eq!(v.next_recv_timeout(), 30000);
}

#[test]
fn acknowledged_commands_speed_polling_up() {
    let mut v = BreezartValues::new();
    assert_eq!(v.next_recv_timeout(), 500);
    assert!(!v.on_response_stub("ERR_1"));
    assert!(!v.on_response_stub("OK"));
    assert_eq!(v.next_recv_timeout(), 30000);
    assert!(v.on_response_stub("OK_VWSpd"));
    for _ in 0..30 {
        assert_eq!(v.next_recv_timeout(), 500);
    }
    assert_eq!(v.next_recv_timeout(), 30000);
}

#[test]
fn status_line_fields() {
    let r = parse_vst07("VSt07_b_2_15_0_a53_77").unwrap();
    assert_eq!(
        r,
        Vst07 { power: Some(0xb), unit: Some(2), temperature: Some(0x15), speed: Some(0xa53) }
    );
    assert!(r.fits());
    // the last captured field runs as far as the hex digits go
    let r = parse_vst07("VSt07_1_1_1_1_fffZ_9").unwrap();
    assert_eq!(r.speed, Some(0xfff));
    // a field too large for u16 is dropped
    let r = parse_vst07("VSt07_10000_3_4_5_6").unwrap();
    assert_eq!(r.power, None);
    assert_eq!(r.unit, Some(3));
}

#[test]
fn status_lines_that_do_not_match() {
    assert_eq!(parse_vst07(""), None);
    assert_eq!(parse_vst07("VSt07_1_2_3_4"), None);
    assert_eq!(parse_vst07("VSt07_1_2_3_4_"), None);
    assert_eq!(parse_vst07("VSt07_1_2_3__5"), None);
    assert_eq!(parse_vst07("VSt07_A_2_3_4_5"), None);
    assert_eq!(parse_vst07("xVSt07_1_2_3_4_5"), None);
    assert_eq!(parse_vst07("VSt08_1_2_3_4_5"), None);
}

#[test]
fn signed_fields_out_of_range_are_flagged() {
    assert!(!parse_vst07("VSt07_1_1_80_1_1").unwrap().fits());
    assert!(!parse_vst07("VSt07_1_1_1_1_8000").unwrap().fits());
    assert!(parse_vst07("VSt07_1_1_17f_1_7f00").unwrap().fits());
}

#[test]
fn on_vst07_response_stores_every_value() {
    let mut v = BreezartValues::new();
    let sent = v.on_vst07_response("VSt07_b_6_15_0_a53_end").unwrap();
    assert_eq!(
        sent,
        vec![
            pair("Breezart.PwrBtnState", "1"),
            pair("Breezart.UnitState", "2"),
            pair("Breezart.Tempr", "21"),
            pair("Breezart.SpeedTarget", "5"),
            pair("Breezart.SpeedFact", "10"),
        ]
    );
    assert_eq!(get_all_values(&v), sent);
    // the same line again changes nothing
    assert_eq!(v.on_vst07_response("VSt07_b_6_15_0_a53_end"), Some(vec![]));
    // a line that does not match leaves the values alone
    assert_eq!(v.on_vst07_response("garbage"), None);
    assert_eq!(get_all_values(&v).len(), 5);
    // one changed field is broadcast
    assert_eq!(
        v.on_vst07_response("VSt07_a_6_15_0_a53"),
        Some(vec![pair("Breezart.PwrBtnState", "0")])
    );
}

#[test]
fn send_set_power_button() {
    assert_eq!(send_set("Breezart.PwrBtn", "1"), SetOutcome::Enqueue("VWPwr_C5E4_1".to_string()));
    assert_eq!(send_set("Breezart.PwrBtn", "0"), SetOutcome::Enqueue("VWPwr_C5E4_0".to_string()));
    assert_eq!(send_set("Breezart.PwrBtn", "2"), SetOutcome::Invalid);
    assert_eq!(send_set("Breezart.PwrBtn", ""), SetOutcome::Invalid);
}

#[test]
fn send_set_speed_target() {
    assert_eq!(send_set("Breezart.SpeedTarget", "10"), SetOutcome::Enqueue("VWSpd_C5E4_A".to_string()));
    assert_eq!(send_set("Breezart.SpeedTarget", "3"), SetOutcome::Enqueue("VWSpd_C5E4_3".to_string()));
    assert_eq!(send_set("Breezart.SpeedTarget", "+7"), SetOutcome::Enqueue("VWSpd_C5E4_7".to_string()));
    assert_eq!(send_set("Breezart.SpeedTarget", "007"), SetOutcome::Enqueue("VWSpd_C5E4_7".to_string()));
    assert_eq!(send_set("Breezart.SpeedTarget", "11"), SetOutcome::Ignored);
    assert_eq!(send_set("Breezart.SpeedTarget", "255"), SetOutcome::Ignored);
    assert_eq!(send_set("Breezart.SpeedTarget", "256"), SetOutcome::Invalid);
    assert_eq!(send_set("Breezart.SpeedTarget", "-1"), SetOutcome::Invalid);
    assert_eq!(send_set("Breezart.SpeedTarget", "+"), SetOutcome::Invalid);
    assert_eq!(send_set("Breezart.SpeedTarget", "x"), SetOutcome::Invalid);
}

#[test]
fn send_set_other_channels() {
    assert_eq!(send_set("Light.Kitchen", "1"), SetOutcome::NotBreezart);
    assert_eq!(send_set("Breezart.Tempr", "1"), SetOutcome::NotBreezart);
}

#[test]
fn the_status_request() {
    assert_eq!(status_request(), "VSt07_C5E4");
}

#[test]
fn captured_fields_read_as_from_str_radix_reads_them() {
    for field in ["0", "ffff", "0000ffff", "10000", "abcde", "7f"] {
        let cs = chars_of(field);
        assert_eq!(
            parse_hex_capture(&cs, 0, cs.len()),
            u16::from_str_radix(field, 16).map_err(|e| e.to_string()),
            "{}",
            field
        );
    }
    let cs = chars_of("ffff");
    assert_eq!(parse_hex_capture(&cs, 0, 4), Ok(65535));
    let cs = chars_of("10000");
    assert_eq!(parse_hex_capture(&cs, 0, 5), Err("number too large to fit in target type".to_string()));
}

#[test]
fn the_last_write_of_a_value_is_listed() {
    let mut v = BreezartValues::new();
    v.store_value(&Parameter::Tempr, "30".to_string());
    v.on_vst07_response("VSt07_1_0_15_0_0").unwrap();
    v.store_value(&Parameter::UnitState, "3".to_string());
    let all = get_all_values(&v);
    let tempr: Vec<&(String, String)> = all.iter().filter(|e| e.0 == "Breezart.Tempr").collect();
    assert_eq!(tempr, vec![&pair("Breezart.Tempr", "21")]);
}

#[test]
fn status_lines_store_well_formed_values() {
    let mut v = BreezartValues::new();
    for line in ["VSt07_ffff_ffff_7f_0_7fff", "VSt07_0_0_0_0_0", "VSt07_1234_5678_1a_9_3c4d"] {
        v.on_vst07_response(line).unwrap();
        for (name, value) in get_all_values(&v) {
            let n: u32 = value.parse().unwrap();
            assert_eq!(n.to_string(), value);
            let bound = match name.as_str() {
                "Breezart.PwrBtnState" => 2,
                "Breezart.UnitState" => 4,
                "Breezart.SpeedTarget" => 16,
                _ => 128,
            };
            assert!(n < bound, "{} {}", name, value);
        }
    }
}
