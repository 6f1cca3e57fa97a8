use ethercat_parser::pdo_converter::PdoConverter;
use ethercat_parser::pretty::{colorize, pretty_frame_lines, Color};
use ethercat_parser::{
    DatagramHeader, EthercatCommand, EthercatFrame, MailboxMessage, MailboxType, ParseStats, ParseTemplate,
    ParsedDatagram, PdoData, PdoValueType, RegisterValue, SdoAccess, TemplateSlave,
};
use std::collections::HashMap;

fn header(slave: u16, reg: u16, wc: u16) -> DatagramHeader {
    DatagramHeader {
        command: EthercatCommand::LRW,
        index: 0,
        slave_address: slave,
        register_offset: reg,
        data_length: 4,
        circulating: false,
        next: false,
        irq: 0,
        working_counter: wc,
    }
}

fn entry(index: u16, sub: u8, name: Option<&str>, value: PdoValueType, unit: Option<&str>, comment: Option<&str>) -> RegisterValue {
    RegisterValue {
        index,
        subindex: sub,
        name: name.map(|s| s.to_string()),
        description: None,
        unit: unit.map(|s| s.to_string()),
        raw_bytes: vec![],
        value,
        business_comment: comment.map(|s| s.to_string()),
    }
}

#[test]
fn pretty_listing_without_colour() {
    let mut conv = PdoConverter::new();
    conv.load_parsed_template(ParseTemplate {
        version: "1".to_string(),
        production_line: "L".to_string(),
        description: "D".to_string(),
        slaves: vec![TemplateSlave {
            slave_id: 1,
            device_name: "Drive".to_string(),
            vendor_id: 1,
            product_code: 2,
            registers: vec![],
        }],
    });
    let mut entries = HashMap::new();
    entries.insert(2, entry(0x7000, 2, Some("Speed"), PdoValueType::Int16(-5), Some("rpm"), Some("fast")));
    entries.insert(1, entry(0x7000, 1, None, PdoValueType::Float(0x3fc0_0000), None, None));
    let d0 = ParsedDatagram {
        header: header(1, 0x0010, 3),
        data: vec![],
        mailbox: None,
        pdo: Some(PdoData { slave_id: 1, pdo_index: 0x1600, entries }),
        is_fault: true,
        fault_code: Some(0x11),
        fault_description: None,
    };
    let d1 = ParsedDatagram {
        header: header(9, 0x1000, 1),
        data: vec![],
        mailbox: Some(MailboxMessage {
            station_address: 9,
            channel: 1,
            priority: 2,
            msg_type: MailboxType::CoE,
            counter: 3,
            payload: vec![],
            sdo: Some(SdoAccess {
                index: 0x6041,
                subindex: 0,
                request: false,
                data: vec![0x0a, 0xff],
                completed: true,
                error_code: Some(5),
            }),
        }),
        pdo: None,
        is_fault: false,
        fault_code: None,
        fault_description: None,
    };
    let frame = EthercatFrame {
        timestamp_ns: 0,
        frame_length: 60,
        ethernet_dest: [1, 2, 3, 4, 5, 6],
        ethernet_src: [0xaa, 0, 0, 0, 0, 0xbb],
        ethertype: 0x88A4,
        datagrams: vec![d0, d1],
    };
    let mut ft = HashMap::new();
    ft.insert(1u16, "1.500000".to_string());
    let lines = pretty_frame_lines(&frame, &conv, &vec![ft, HashMap::new()], true);
    let expected = vec![
        "═══ Frame @ 1970-01-01T00:00:00.000000000Z ═══════════════════════════════",
        "  Eth: aa:00:00:00:00:bb → 01:02:03:04:05:06  Ethertype: 0x88a4  Len: 60B",
        "  [0] LRW  Slave#1 (Drive)      Reg:0x0010   WC:3    ",
        "  ⚠ FAULT: Unknown fault (0x0011)",
        "     └ PDO entries:",
        "        · 0x7000:1 = 1.500000  ",
        "        · Speed = -5 rpm  // fast",
        "  [1] LRW  Slave#9              Reg:0x1000   WC:1    ",
        "     └ Mailbox [CoE] Ch:1 Pri:2 Cnt:3",
        "       SDO[RES] 0x6041:0 data=0aff err=Some(5)",
    ];
    assert_eq!(lines, expected);
    for l in &lines {
        assert!(!l.contains('\u{1b}'));
    }
}

#[test]
fn no_colour_leaves_text_unchanged() {
    assert_eq!(colorize("abc", Color::BrightRed, true), "abc");
}

#[test]
fn summary_and_preview_without_colour() {
    let mut stats = ParseStats::default();
    stats.total_frames = 2;
    stats.fault_count = 1;
    stats.slave_counts.insert(7, 3);
    stats.slave_counts.insert(2, 5);
    let lines = ethercat_parser::pretty::pretty_summary_lines(&stats, true);
    let expected = vec![
        "",
        "═══════════ Parsing Summary ═══════════",
        "  Total frames:                2",
        "  Total datagrams:             0",
        "  CoE messages:                0",
        "  FoE messages:                0",
        "  EoE messages:                0",
        "  PDO updates:                 0",
        "  Faults detected:             1",
        "",
        "  Slave communication counts:",
        "    Slave#2      5",
        "    Slave#7      3",
        "═════════════════════════════════════════",
    ];
    assert_eq!(lines, expected);
    let t = ParseTemplate {
        version: "1.0".to_string(),
        production_line: "Line-A".to_string(),
        description: "Demo".to_string(),
        slaves: vec![TemplateSlave {
            slave_id: 3,
            device_name: "IO".to_string(),
            vendor_id: 0x2a,
            product_code: 0x1001,
            registers: vec![],
        }],
    };
    assert_eq!(
        ethercat_parser::pretty::template_preview_lines(&t, true),
        vec![
            "Template loaded: Line-A (v1.0) - Demo",
            "  Slave#3: IO [vendor=0x0000002a, product=0x00001001] - 0 registers",
        ]
    );
}

#[test]
fn colour_forced_on_paints_fragments() {
    colored::control::set_override(true);
    assert_eq!(colorize("abc", Color::BrightRed, false), "\u{1b}[91mabc\u{1b}[0m");
    assert_eq!(
        colorize("a\u{1b}[0mb", Color::Green, false),
        "\u{1b}[32ma\u{1b}[0m\u{1b}[32mb\u{1b}[0m"
    );
    let mut stats = ParseStats::default();
    stats.total_frames = 3;
    let lines = ethercat_parser::pretty::pretty_summary_lines(&stats, false);
    assert_eq!(lines.len(), 10);
    assert_eq!(lines[0], "");
    assert_eq!(lines[1], "\u{1b}[93m═══════════ Parsing Summary ═══════════\u{1b}[0m");
    assert_eq!(lines[2], "  \u{1b}[34mTotal frames:\u{1b}[0m       \u{1b}[97m3\u{1b}[0m");
    assert_eq!(lines[8], "  \u{1b}[34mFaults detected:\u{1b}[0m    \u{1b}[32m0\u{1b}[0m");
    assert_eq!(lines[9], "\u{1b}[93m═════════════════════════════════════════\u{1b}[0m");
    colored::control::unset_override();
}
