use ethercat_parser::pdo_converter::PdoConverter;
use ethercat_parser::{
    ParseTemplate, PdoValueType, StateMachineState, TemplateRegister, TemplateSlave,
};

fn register(
    index: u16,
    subindex: u8,
    name: &str,
    description: &str,
    data_type: &str,
    unit: &str,
    comment: &str,
) -> TemplateRegister {
    TemplateRegister {
        index,
        subindex,
        name: name.to_string(),
        description: description.to_string(),
        data_type: data_type.to_string(),
        unit: Some(unit.to_string()),
        business_comment: Some(comment.to_string()),
    }
}

/// The sample template: one servo drive with a position and a velocity register.
fn sample_template() -> ParseTemplate {
    ParseTemplate {
        version: "1.0".to_string(),
        production_line: "Line-A".to_string(),
        description: "Assembly Line A register mapping".to_string(),
        slaves: vec![TemplateSlave {
            slave_id: 1,
            device_name: "Servo-Drive-X1".to_string(),
            vendor_id: 42,
            product_code: 1001,
            registers: vec![
                register(
                    28672,
                    1,
                    "Target_Position",
                    "Motor target position in counts",
                    "int32",
                    "count",
                    "X-axis servo position command",
                ),
                register(
                    28672,
                    2,
                    "Actual_Velocity",
                    "Actual motor velocity",
                    "int16",
                    "rpm",
                    "X-axis current velocity",
                ),
            ],
        }],
    }
}

#[test]
fn test_load_template() {
    let mut conv = PdoConverter::new();
    conv.load_parsed_template(sample_template());
    assert_eq!(conv.get_template().unwrap().production_line, "Line-A");
    assert_eq!(conv.get_slave_device_name(1), Some("Servo-Drive-X1"));
}

#[test]
fn test_convert_pdo_with_template() {
    let mut conv = PdoConverter::new();
    conv.load_parsed_template(sample_template());
    let mut raw = vec![0u8; 6];
    raw[0] = 0x78;
    raw[1] = 0x56;
    raw[2] = 0x34;
    raw[3] = 0x12;
    raw[4] = 0x20;
    raw[5] = 0x4e;
    let pdo = conv.convert_pdo_data(1, 0x1600, &raw);
    assert_eq!(pdo.slave_id, 1);
    assert!(pdo.entries.len() >= 2);
    let key1 = ((0x7000u32) << 8) | 1;
    if let Some(entry) = pdo.entries.get(&(key1 as u16)) {
        assert_eq!(entry.name.as_deref(), Some("Target_Position"));
        if let PdoValueType::Int32(v) = entry.value {
            assert_eq!(v, 0x12345678);
        } else {
            panic!("Expected Int32");
        }
    }
}

#[test]
fn test_value_formatting() {
    assert_eq!(
        PdoConverter::format_value(&PdoValueType::Bool(true)).as_deref(),
        Some("true")
    );
    assert_eq!(
        PdoConverter::format_value(&PdoValueType::Int32(42)).as_deref(),
        Some("42")
    );
    assert_eq!(
        PdoConverter::format_value(&PdoValueType::State(StateMachineState::Op)).as_deref(),
        Some("OP")
    );
}

#[test]
fn formatting_covers_every_kind() {
    assert_eq!(PdoConverter::format_value(&PdoValueType::Int8(-5)).as_deref(), Some("-5"));
    assert_eq!(
        PdoConverter::format_value(&PdoValueType::Int64(i64::MIN)).as_deref(),
        Some("-9223372036854775808")
    );
    assert_eq!(
        PdoConverter::format_value(&PdoValueType::Uint64(u64::MAX)).as_deref(),
        Some("18446744073709551615")
    );
    assert_eq!(
        PdoConverter::format_value(&PdoValueType::Bytes(vec![0x0a, 0xff])).as_deref(),
        Some("0aff")
    );
    assert_eq!(
        PdoConverter::format_value(&PdoValueType::String("abc".to_string())).as_deref(),
        Some("abc")
    );
    assert_eq!(PdoConverter::format_value(&PdoValueType::Float(0x3f80_0000)), None);
    assert_eq!(PdoConverter::format_value(&PdoValueType::Double(0)), None);
}

#[test]
fn unknown_slave_and_no_template() {
    let conv = PdoConverter::new();
    assert!(conv.get_template().is_none());
    assert_eq!(conv.get_slave_device_name(1), None);
    let mut conv = PdoConverter::new();
    conv.load_parsed_template(sample_template());
    assert_eq!(conv.get_slave_device_name(2), None);
}

#[test]
fn conversion_decodes_values_in_order() {
    let mut conv = PdoConverter::new();
    conv.load_parsed_template(sample_template());
    let raw = vec![0x78, 0x56, 0x34, 0x12, 0x20, 0x4e];
    let pdo = conv.convert_pdo_data(1, 0x1600, &raw);
    let pos = pdo.entries.values().find(|r| r.subindex == 1).unwrap();
    let vel = pdo.entries.values().find(|r| r.subindex == 2).unwrap();
    match pos.value {
        PdoValueType::Int32(v) => assert_eq!(v, 0x12345678),
        _ => panic!("position should be an Int32"),
    }
    match vel.value {
        PdoValueType::Int16(v) => assert_eq!(v, 20000),
        _ => panic!("velocity should be an Int16"),
    }
    assert_eq!(vel.unit.as_deref(), Some("rpm"));
}

#[test]
fn text_registers_decode_up_to_the_terminator() {
    let mut conv = PdoConverter::new();
    conv.load_parsed_template(ParseTemplate {
        version: "1.0".to_string(),
        production_line: "L".to_string(),
        description: "D".to_string(),
        slaves: vec![TemplateSlave {
            slave_id: 7,
            device_name: "Label-Printer".to_string(),
            vendor_id: 1,
            product_code: 2,
            registers: vec![register(0x7000, 1, "Label", "Printed label", "string", "", "")],
        }],
    });
    let raw = vec![b'a', b'b', 0xC3, 0xA9, 0, b'z'];
    let pdo = conv.convert_pdo_data(7, 0x1600, &raw);
    let label = pdo.entries.values().find(|r| r.subindex == 1).unwrap();
    match &label.value {
        PdoValueType::String(s) => assert_eq!(s, "ab\u{e9}"),
        _ => panic!("a string register should decode to text"),
    }
    assert_eq!(label.raw_bytes, vec![b'a', b'b', 0xC3, 0xA9, 0]);
}

#[test]
fn last_slave_of_an_address_wins_and_a_reload_replaces_everything() {
    let mut t = sample_template();
    let mut second = t.slaves[0].clone();
    second.device_name = "Servo-Drive-X2".to_string();
    second.registers.clear();
    t.slaves.push(second);
    let mut other = t.slaves[0].clone();
    other.slave_id = 5;
    other.device_name = "IO-Block".to_string();
    t.slaves.push(other);
    let mut conv = PdoConverter::new();
    conv.load_parsed_template(t);
    assert_eq!(conv.get_slave_device_name(1), Some("Servo-Drive-X2"));
    assert_eq!(conv.get_slave_device_name(5), Some("IO-Block"));
    assert_eq!(conv.get_slave_device_name(2), None);
    conv.load_parsed_template(sample_template());
    assert_eq!(conv.get_slave_device_name(1), Some("Servo-Drive-X1"));
    assert_eq!(conv.get_slave_device_name(5), None);
    assert_eq!(conv.get_template().unwrap().slaves.len(), 1);
}
