// End-to-end scenarios: frames are written as a raw capture, read back,
// decoded, converted, counted and filtered. The frame builder announces the
// eight data bytes that each process-data datagram carries (position,
// velocity and digital inputs); a frame announcing more than it carries is
// refused by the decoder (see `frames_announcing_more_data_than_they_carry_are_refused`).
// The register template is built here, as the scenarios only need the slave
// names it gives.
use ethercat_parser::ethercat_parser::{parse_ethercat_frame, update_stats, FilterOptions};
use ethercat_parser::io_reader::{FrameReader, RawFileReader};
use ethercat_parser::pdo_converter::PdoConverter;
use ethercat_parser::{
    EthercatCommand, MailboxType, ParseStats, ParseTemplate, TemplateRegister, TemplateSlave,
    AL_ERROR_CODE_REG, ETHERCAT_ETHERTYPE,
};

fn build_test_frame(slave_count: u16, include_fault: bool, fault_code: u32) -> Vec<u8> {
    let mut data = Vec::new();
    data.extend_from_slice(&[0x01u8, 0x01, 0x05, 0x04, 0x00, 0x00]);
    data.extend_from_slice(&[0x08u8, 0x06, 0x07, 0x08, 0x09, 0x0a]);
    data.extend_from_slice(&ETHERCAT_ETHERTYPE.to_be_bytes());
    let mut datagrams: Vec<Vec<u8>> = Vec::new();
    for i in 0..slave_count {
        let is_last = i + 1 == slave_count;
        let sid = i + 1;
        let mut dg = Vec::new();
        dg.push(0x0C);
        dg.push(i as u8);
        dg.extend_from_slice(&sid.to_le_bytes());
        let inject = include_fault && sid == slave_count;
        let reg: u16 = if inject { AL_ERROR_CODE_REG } else { 0x0010 };
        dg.extend_from_slice(&reg.to_le_bytes());
        let plen: u16 = if inject { 4 } else { 8 };
        let nflag: u16 = if is_last { 0 } else { 1u16 << 15 };
        let lf: u16 = plen | nflag;
        dg.extend_from_slice(&lf.to_le_bytes());
        dg.extend_from_slice(&0u16.to_le_bytes());
        if inject {
            dg.extend_from_slice(&fault_code.to_le_bytes());
        } else {
            let pos: i32 = (i as i32) * 1000 + 500;
            dg.extend_from_slice(&pos.to_le_bytes());
            let vel: i16 = (i as i16) * 100 + 200;
            dg.extend_from_slice(&vel.to_le_bytes());
            let io: u16 = 0xFF00 | (i as u16);
            dg.extend_from_slice(&io.to_le_bytes());
        }
        let wc: u16 = 1;
        dg.extend_from_slice(&wc.to_le_bytes());
        datagrams.push(dg);
    }
    let total: usize = datagrams.iter().map(|d| d.len()).sum();
    let mut ec = [0u8; 4];
    let ecls = (total as u16) & 0x07FF;
    ec[0] = (ecls & 0xFF) as u8;
    ec[1] = ((ecls >> 8) & 0x07) as u8;
    ec[2] = 0;
    ec[3] = slave_count as u8;
    data.extend_from_slice(&ec);
    for dg in datagrams {
        data.extend(dg);
    }
    data
}

fn wrap_as_raw_capture(frames: &[Vec<u8>]) -> Vec<u8> {
    let mut buf = Vec::new();
    let mut ts: u64 = 1_700_000_000_000_000_000;
    for f in frames {
        buf.extend_from_slice(&(f.len() as u32).to_le_bytes());
        buf.extend_from_slice(&ts.to_le_bytes());
        buf.extend_from_slice(f);
        ts += 1_000_000;
    }
    buf
}

fn slave(id: u16, name: &str) -> TemplateSlave {
    TemplateSlave {
        slave_id: id,
        device_name: name.to_string(),
        vendor_id: 0x2a,
        product_code: 0x1000 + id as u32,
        registers: vec![TemplateRegister {
            index: 0x7000,
            subindex: 1,
            name: "Position".to_string(),
            description: "Actual position".to_string(),
            data_type: "int32".to_string(),
            unit: Some("count".to_string()),
            business_comment: None,
        }],
    }
}

fn line_template() -> ParseTemplate {
    ParseTemplate {
        version: "1.0".to_string(),
        production_line: "Assembly-Line-A".to_string(),
        description: "Register mapping".to_string(),
        slaves: vec![
            slave(1, "X-Axis-Servo-Drive"),
            slave(2, "Y-Axis-Servo-Drive"),
            slave(3, "IO-Module-Conveyor"),
            slave(4, "Temperature-Controller"),
            slave(5, "Vision-Inspector"),
        ],
    }
}

#[test]
fn integration_pipeline_read_parse_filter_enhance() {
    let frame1 = build_test_frame(5, false, 0);
    let frame2 = build_test_frame(5, true, 0x0011);
    let capture = wrap_as_raw_capture(&[frame1, frame2]);
    let mut reader = RawFileReader::from_bytes(capture);
    let mut stats = ParseStats::default();
    let mut conv = PdoConverter::new();
    conv.load_parsed_template(line_template());
    let mut parsed_frames = Vec::new();
    loop {
        let rf = reader.read_next_frame().unwrap();
        match rf {
            Some(raw) => {
                let mut pf = parse_ethercat_frame(&raw).unwrap();
                for dg in pf.datagrams.iter_mut() {
                    conv.enhance_datagram(dg);
                }
                update_stats(&mut stats, &pf);
                parsed_frames.push(pf);
            }
            None => break,
        }
    }
    let total_frames = parsed_frames.len();
    assert_eq!(total_frames, 2);
    assert_eq!(stats.total_frames, 2);
    assert_eq!(stats.total_datagrams, 10);
    assert_eq!(stats.fault_count, 1);
    assert_eq!(*stats.slave_counts.get(&1).unwrap(), 2);
    assert_eq!(*stats.slave_counts.get(&5).unwrap(), 2);
    let pf = &parsed_frames[0];
    assert_eq!(pf.ethertype, ETHERCAT_ETHERTYPE);
    assert_eq!(pf.datagrams.len(), 5);
    let dg0 = &pf.datagrams[0];
    assert_eq!(dg0.header.command, EthercatCommand::LRW);
    assert_eq!(dg0.header.slave_address, 1);
    assert_eq!(dg0.header.register_offset, 0x0010);
    let pf2 = &parsed_frames[1];
    let last_dg = &pf2.datagrams[4];
    assert_eq!(last_dg.header.slave_address, 5);
    assert_eq!(last_dg.is_fault, true);
    assert_eq!(last_dg.fault_code, Some(0x0011));
    assert!(last_dg.fault_description.as_ref().unwrap().contains("state change"));
    assert_eq!(conv.get_slave_device_name(1), Some("X-Axis-Servo-Drive"));
    assert_eq!(conv.get_slave_device_name(3), Some("IO-Module-Conveyor"));
}

#[test]
fn integration_filter_slave_id() {
    let capture = wrap_as_raw_capture(&[build_test_frame(5, false, 0)]);
    let mut reader = RawFileReader::from_bytes(capture);
    let raw = reader.read_next_frame().unwrap().unwrap();
    let pf = parse_ethercat_frame(&raw).unwrap();
    let mut filter = FilterOptions::new();
    filter.slave_ids = vec![3];
    assert!(filter.matches_frame(&pf));
    let filtered = filter.filter_frame(pf).unwrap();
    assert_eq!(filtered.datagrams.len(), 1);
    assert_eq!(filtered.datagrams[0].header.slave_address, 3);
}

#[test]
fn integration_filter_fault_code() {
    let capture = wrap_as_raw_capture(&[build_test_frame(5, true, 0x001A)]);
    let mut reader = RawFileReader::from_bytes(capture);
    let raw = reader.read_next_frame().unwrap().unwrap();
    let pf = parse_ethercat_frame(&raw).unwrap();
    let mut filter = FilterOptions::new();
    filter.fault_codes = vec![0x0011];
    assert!(!filter.matches_frame(&pf));
    filter.fault_codes = vec![0x001A];
    assert!(filter.matches_frame(&pf));
    let filtered = filter.filter_frame(pf).unwrap();
    assert_eq!(filtered.datagrams.len(), 1);
    assert_eq!(filtered.datagrams[0].fault_code, Some(0x001A));
}

#[test]
fn integration_filter_msg_type() {
    let capture = wrap_as_raw_capture(&[build_test_frame(3, false, 0)]);
    let mut reader = RawFileReader::from_bytes(capture);
    let raw = reader.read_next_frame().unwrap().unwrap();
    let pf = parse_ethercat_frame(&raw).unwrap();
    let mut filter = FilterOptions::new();
    filter.msg_types = vec![MailboxType::CoE];
    assert!(!filter.matches_frame(&pf));
}

#[test]
fn integration_pdo_conversion_with_template() {
    let capture = wrap_as_raw_capture(&[build_test_frame(5, false, 0)]);
    let mut reader = RawFileReader::from_bytes(capture);
    let raw = reader.read_next_frame().unwrap().unwrap();
    let mut pf = parse_ethercat_frame(&raw).unwrap();
    let mut conv = PdoConverter::new();
    conv.load_parsed_template(line_template());
    for dg in pf.datagrams.iter_mut() {
        conv.enhance_datagram(dg);
    }
    let dg_x = &pf.datagrams[0];
    if let Some(ref pdo) = dg_x.pdo {
        assert_eq!(pdo.slave_id, 1);
        if let Some(entry) = pdo.entries.values().next() {
            let val_str = PdoConverter::format_value(&entry.value);
            assert!(!val_str.unwrap_or_default().is_empty());
        }
    }
}

#[test]
fn integration_stats_update() {
    let capture = wrap_as_raw_capture(&[build_test_frame(3, false, 0), build_test_frame(3, true, 0x0030)]);
    let mut reader = RawFileReader::from_bytes(capture);
    let mut stats = ParseStats::default();
    while let Some(raw) = reader.read_next_frame().unwrap() {
        let pf = parse_ethercat_frame(&raw).unwrap();
        update_stats(&mut stats, &pf);
    }
    assert_eq!(stats.total_frames, 2);
    assert_eq!(stats.total_datagrams, 6);
    assert_eq!(stats.coe_messages, 0);
    assert_eq!(stats.fault_count, 1);
    assert_eq!(*stats.slave_counts.get(&2).unwrap(), 2);
}

#[test]
fn integration_multiple_datagrams_one_frame() {
    let capture = wrap_as_raw_capture(&[build_test_frame(8, false, 0)]);
    let mut reader = RawFileReader::from_bytes(capture);
    let raw = reader.read_next_frame().unwrap().unwrap();
    let pf = parse_ethercat_frame(&raw).unwrap();
    assert_eq!(pf.datagrams.len(), 8);
    for i in 0..8 {
        assert_eq!(pf.datagrams[i].header.slave_address, (i as u16) + 1);
    }
}
