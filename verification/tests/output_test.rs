use ethercat_parser::output::{
    csv_escape, csv_header, csv_row, entry_label, format_mac, format_mailbox_state, format_slave,
    format_ts, pdo_values_text, summary_line, table_row, timestamp_text,
};
use std::collections::HashMap;
use ethercat_parser::pdo_converter::PdoConverter;
use ethercat_parser::{
    DatagramHeader, EthercatCommand, MailboxMessage, MailboxType, ParseStats, ParseTemplate,
    ParsedDatagram, PdoData, PdoValueType, RegisterValue, TemplateSlave,
};

#[test]
fn test_format_ts() {
    let s = format_ts(1_700_000_000_123_456_789);
    assert!(s.contains("2023-11"));
}

#[test]
fn test_format_mac() {
    let m = [0x00, 0x11, 0x22, 0x33, 0x44, 0x55];
    assert_eq!(format_mac(&m), "00:11:22:33:44:55");
}

#[test]
fn test_csv_escape() {
    assert_eq!(csv_escape("abc"), "abc");
    assert_eq!(csv_escape("a,b"), "\"a,b\"");
    assert_eq!(csv_escape("a\"b"), "\"a\"\"b\"");
}

#[test]
fn timestamp_text_exact() {
    assert_eq!(format_ts(1_700_000_000_123_456_789), "2023-11-14T22:13:20.123456789Z");
    assert_eq!(format_ts(0), "1970-01-01T00:00:00.000000000Z");
    assert_eq!(timestamp_text(42, None), "42ns");
    assert_eq!(timestamp_text(42, Some("x".to_string())), "x");
}

#[test]
fn csv_escape_edge_cases() {
    assert_eq!(csv_escape(""), "");
    assert_eq!(csv_escape("line\nbreak"), "\"line\nbreak\"");
    assert_eq!(csv_escape("\"\""), "\"\"\"\"\"\"");
}

fn converter_with(id: u16, name: &str) -> PdoConverter {
    let mut c = PdoConverter::new();
    c.load_parsed_template(ParseTemplate {
        version: "1".to_string(),
        production_line: "L".to_string(),
        description: "D".to_string(),
        slaves: vec![TemplateSlave {
            slave_id: id,
            device_name: name.to_string(),
            vendor_id: 1,
            product_code: 2,
            registers: vec![],
        }],
    });
    c
}

fn datagram(slave: u16, reg: u16) -> ParsedDatagram {
    ParsedDatagram {
        header: DatagramHeader {
            command: EthercatCommand::LRW,
            index: 0,
            slave_address: slave,
            register_offset: reg,
            data_length: 4,
            circulating: false,
            next: false,
            irq: 0,
            working_counter: 3,
        },
        data: vec![0x11, 0, 0, 0],
        mailbox: None,
        pdo: None,
        is_fault: false,
        fault_code: None,
        fault_description: None,
    }
}

#[test]
fn slave_labels() {
    let c = converter_with(3, "IO-Module");
    assert_eq!(format_slave(3, &c), "3 (IO-Module)");
    assert_eq!(format_slave(4, &c), "4");
}

#[test]
fn mailbox_state_labels() {
    let mut dg = datagram(1, 0x10);
    assert_eq!(format_mailbox_state(&dg), "\u{2014}");
    dg.pdo = Some(PdoData { slave_id: 1, pdo_index: 0x1600, entries: Default::default() });
    assert_eq!(format_mailbox_state(&dg), "PDO");
    dg.mailbox = Some(MailboxMessage {
        station_address: 1,
        channel: 0,
        priority: 0,
        msg_type: MailboxType::FoE,
        counter: 1,
        payload: vec![],
        sdo: None,
    });
    assert_eq!(format_mailbox_state(&dg), "FoE");
}

#[test]
fn entry_labels() {
    let mut r = RegisterValue {
        index: 0x7000,
        subindex: 3,
        name: None,
        description: None,
        unit: None,
        raw_bytes: vec![],
        value: PdoValueType::Bool(true),
        business_comment: None,
    };
    assert_eq!(entry_label(&r), "0x7000:3");
    r.name = Some("Speed".to_string());
    assert_eq!(entry_label(&r), "Speed");
}

#[test]
fn table_and_csv_rows() {
    let c = converter_with(2, "Drive");
    let mut dg = datagram(2, 0x0134);
    dg.is_fault = true;
    dg.fault_code = Some(0x11);
    dg.fault_description = Some("Invalid, state".to_string());
    let row = table_row(0, &dg, &c);
    assert_eq!(
        row,
        "1970-01-01T00:00:00.000000000Z 2 (Drive)            LRW    0x0134   4      3    \u{2014}      0x0011"
    );
    let line = csv_row(5, &dg, &c, "a=1;b=2");
    assert_eq!(line, "5,2,Drive,LRW,308,4,3,,a=1;b=2,true,17,\"Invalid, state\"");
    assert!(csv_header().starts_with("timestamp_ns,slave_id"));
}

#[test]
fn summary_counters_line() {
    let mut s = ParseStats::default();
    s.total_frames = 2;
    s.total_datagrams = 10;
    s.fault_count = 1;
    s.pdo_updates = 7;
    assert_eq!(summary_line(&s), "2,10,0,0,0,7,1");
}

#[test]
fn csv_row_escapes_device_name() {
    let c = converter_with(2, "Drive, left");
    let dg = datagram(2, 0x0010);
    let line = csv_row(5, &dg, &c, "");
    assert_eq!(line, "5,2,\"Drive, left\",LRW,16,4,3,,,false,0,");
}

#[test]
fn pdo_values_joined_as_label_value_pairs() {
    assert_eq!(pdo_values_text(&None, &HashMap::new()), "");
    let mut entries = HashMap::new();
    entries.insert(
        1u16,
        RegisterValue {
            index: 0x7000,
            subindex: 1,
            name: Some("Pos".to_string()),
            description: None,
            unit: None,
            raw_bytes: vec![],
            value: PdoValueType::Int32(-5),
            business_comment: None,
        },
    );
    entries.insert(
        2u16,
        RegisterValue {
            index: 0x7000,
            subindex: 2,
            name: None,
            description: None,
            unit: None,
            raw_bytes: vec![],
            value: PdoValueType::Float(0),
            business_comment: None,
        },
    );
    let pdo = Some(PdoData { slave_id: 1, pdo_index: 0x1600, entries });
    let mut floats = HashMap::new();
    floats.insert(2u16, "0.000000".to_string());
    let text = pdo_values_text(&pdo, &floats);
    let mut parts: Vec<&str> = text.split(';').collect();
    parts.sort();
    assert_eq!(parts, vec!["0x7000:2=0.000000", "Pos=-5"]);
}
