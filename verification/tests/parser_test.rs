use ethercat_parser::ethercat_parser::{
    describe_al_error, parse_ethercat_frame, update_stats, FilterOptions, FrameHeader, ParseError,
    RawEthercatFrame,
};
use ethercat_parser::{EthercatCommand, MailboxType, ParseStats, AL_ERROR_CODE_REG};

fn make_test_frame_raw() -> RawEthercatFrame {
    let mut data = Vec::new();
    data.extend_from_slice(&[0x01, 0x01, 0x05, 0x04, 0x00, 0x00]);
    data.extend_from_slice(&[0x08, 0x06, 0x07, 0x08, 0x09, 0x0a]);
    data.extend_from_slice(&0x88A4u16.to_be_bytes());
    let mut ec = [0u8; 4];
    let dg_len: u16 = 28;
    ec[0] = (dg_len & 0xFF) as u8;
    ec[1] = ((dg_len >> 8) & 0x07) as u8;
    ec[2] = 0;
    ec[3] = 1;
    data.extend_from_slice(&ec);
    let mut dg = vec![0u8; 28];
    dg[0] = 0x0c;
    dg[1] = 0x01;
    dg[2] = 0x02;
    dg[3] = 0x00;
    dg[4] = 0x10;
    dg[5] = 0x00;
    let len_flags: u16 = 12 | (1u16 << 15);
    dg[6] = (len_flags & 0xFF) as u8;
    dg[7] = ((len_flags >> 8) & 0xFF) as u8;
    dg[8] = 0x00;
    dg[9] = 0x00;
    dg[10] = 0x00;
    dg[11] = 0x01;
    dg[12] = 0x02;
    dg[13] = 0x03;
    dg[14] = 0x04;
    dg[15] = 0x05;
    dg[16] = 0x06;
    dg[17] = 0x07;
    dg[18] = 0x08;
    dg[19] = 0x09;
    dg[20] = 0x0a;
    dg[21] = 0x0b;
    dg[22] = 0x01;
    dg[23] = 0x00;
    data.extend_from_slice(&dg);
    let header = FrameHeader::parse(&data).unwrap();
    RawEthercatFrame {
        timestamp_ns: 123456789,
        frame_length: data.len(),
        data,
        header,
    }
}

fn raw_from(data: Vec<u8>) -> RawEthercatFrame {
    let header = FrameHeader::parse(&data).unwrap();
    RawEthercatFrame {
        timestamp_ns: 5,
        frame_length: data.len(),
        data,
        header,
    }
}

fn ethernet_prefix(ec_len: u16, count: u8) -> Vec<u8> {
    let mut data = Vec::new();
    data.extend_from_slice(&[0x01, 0x01, 0x05, 0x04, 0x00, 0x00]);
    data.extend_from_slice(&[0x08, 0x06, 0x07, 0x08, 0x09, 0x0a]);
    data.extend_from_slice(&0x88A4u16.to_be_bytes());
    data.push((ec_len & 0xFF) as u8);
    data.push(((ec_len >> 8) & 0x07) as u8);
    data.push(0);
    data.push(count);
    data
}

fn datagram(cmd: u8, slave: u16, reg: u16, payload: &[u8], more: bool, wc: u16) -> Vec<u8> {
    let mut dg = vec![cmd, 0];
    dg.extend_from_slice(&slave.to_le_bytes());
    dg.extend_from_slice(&reg.to_le_bytes());
    let lf: u16 = (payload.len() as u16) | if more { 1u16 << 15 } else { 0 };
    dg.extend_from_slice(&lf.to_le_bytes());
    dg.extend_from_slice(&0u16.to_le_bytes());
    dg.extend_from_slice(payload);
    dg.extend_from_slice(&wc.to_le_bytes());
    dg
}

#[test]
fn test_parse_frame_header() {
    let raw = make_test_frame_raw();
    assert_eq!(raw.header.ethertype, 0x88A4);
    assert_eq!(raw.header.ec_header.num_datagrams, 1);
}

#[test]
fn test_parse_full_frame() {
    let raw = make_test_frame_raw();
    let frame = parse_ethercat_frame(&raw).unwrap();
    assert_eq!(frame.timestamp_ns, 123456789);
    assert_eq!(frame.datagrams.len(), 1);
    let dg = &frame.datagrams[0];
    assert_eq!(dg.header.slave_address, 2);
    assert_eq!(dg.header.command, EthercatCommand::LRW);
    assert_eq!(dg.header.register_offset, 0x0010);
}

#[test]
fn test_filter() {
    let raw = make_test_frame_raw();
    let frame = parse_ethercat_frame(&raw).unwrap();
    let mut f = FilterOptions::new();
    assert!(f.matches_frame(&frame));
    f.slave_ids = vec![100];
    assert!(!f.matches_frame(&frame));
    let mut f2 = FilterOptions::new();
    f2.slave_ids = vec![2];
    assert!(f2.matches_frame(&frame));
}

#[test]
fn test_al_error_codes() {
    assert!(describe_al_error(0x0011).contains("state change"));
    assert!(describe_al_error(0xFFFF).contains("General"));
}

#[test]
fn header_errors_are_reported() {
    assert_eq!(
        FrameHeader::parse(&[0u8; 10]).unwrap_err(),
        ParseError::EthernetTooShort(10)
    );
    let mut not_ec = vec![0u8; 20];
    not_ec[12] = 0x08;
    not_ec[13] = 0x00;
    assert_eq!(FrameHeader::parse(&not_ec).unwrap_err(), ParseError::NotEthercat(0x0800));
    let mut short = vec![0u8; 16];
    short[12] = 0x88;
    short[13] = 0xA4;
    assert_eq!(
        FrameHeader::parse(&short).unwrap_err(),
        ParseError::EthercatHeaderTooShort
    );
}

#[test]
fn truncated_datagram_is_reported() {
    // The EtherCAT header announces a 12-byte payload but only 8 are present.
    let mut data = ethernet_prefix(24, 1);
    let mut dg = datagram(0x0C, 1, 0x0010, &[0u8; 12], false, 1);
    dg.truncate(20);
    data.extend_from_slice(&dg);
    let raw = raw_from(data);
    assert_eq!(
        parse_ethercat_frame(&raw).unwrap_err(),
        ParseError::DatagramTruncated { need: 24, have: 20 }
    );
}

#[test]
fn fault_datagram_carries_code_and_text() {
    let dg = datagram(0x0C, 5, AL_ERROR_CODE_REG, &0x0011u32.to_le_bytes(), false, 1);
    let mut data = ethernet_prefix(dg.len() as u16, 1);
    data.extend_from_slice(&dg);
    let frame = parse_ethercat_frame(&raw_from(data)).unwrap();
    let d = &frame.datagrams[0];
    assert!(d.is_fault);
    assert_eq!(d.fault_code, Some(0x0011));
    assert_eq!(d.fault_description, Some(describe_al_error(0x0011)));
}

#[test]
fn coe_sdo_mailbox_is_recognized() {
    // Mailbox header: length 10, station 0x1001, channel/priority 0, type CoE (3), counter 2.
    let mut mbx = vec![0x0A, 0x00, 0x01, 0x10, 0x00, 0x23];
    // CoE header: SDO request service (0x2000 -> bytes 0x00, 0x20).
    mbx.extend_from_slice(&[0x00, 0x20]);
    // SDO: command (upload request), index 0x6041, subindex 0, data.
    mbx.extend_from_slice(&[0x40, 0x41, 0x60, 0x00, 0x00, 0x00, 0x00, 0x00]);
    let dg = datagram(0x06, 0x1001, 0x1000, &mbx, false, 1);
    let mut data = ethernet_prefix(dg.len() as u16, 1);
    data.extend_from_slice(&dg);
    let frame = parse_ethercat_frame(&raw_from(data)).unwrap();
    let d = &frame.datagrams[0];
    let m = d.mailbox.as_ref().unwrap();
    assert_eq!(m.msg_type, MailboxType::CoE);
    assert_eq!(m.counter, 2);
    assert!(d.pdo.is_none());
}

#[test]
fn stats_count_frames_datagrams_and_slaves() {
    let d1 = datagram(0x0C, 1, 0x0010, &[1, 2, 3, 4], true, 1);
    let d2 = datagram(0x0C, 2, AL_ERROR_CODE_REG, &0x001Au32.to_le_bytes(), false, 1);
    let mut data = ethernet_prefix((d1.len() + d2.len()) as u16, 2);
    data.extend_from_slice(&d1);
    data.extend_from_slice(&d2);
    let frame = parse_ethercat_frame(&raw_from(data)).unwrap();
    let mut stats = ParseStats::default();
    update_stats(&mut stats, &frame);
    update_stats(&mut stats, &frame);
    assert_eq!(stats.total_frames, 2);
    assert_eq!(stats.total_datagrams, 4);
    assert_eq!(stats.fault_count, 2);
    assert_eq!(stats.pdo_updates, 4);
    assert_eq!(*stats.slave_counts.get(&1).unwrap(), 2);
    assert_eq!(*stats.slave_counts.get(&2).unwrap(), 2);
}

#[test]
fn filtering_twice_changes_nothing() {
    let d1 = datagram(0x0C, 1, 0x0010, &[1, 2], true, 1);
    let d2 = datagram(0x0C, 2, 0x0010, &[3, 4], true, 1);
    let d3 = datagram(0x04, 3, 0x0010, &[5, 6], false, 1);
    let mut data = ethernet_prefix((d1.len() + d2.len() + d3.len()) as u16, 3);
    data.extend_from_slice(&d1);
    data.extend_from_slice(&d2);
    data.extend_from_slice(&d3);
    let frame = parse_ethercat_frame(&raw_from(data)).unwrap();
    let mut f = FilterOptions::new();
    f.slave_ids = vec![2, 3];
    f.commands = vec![EthercatCommand::LRW];
    let once = f.filter_frame(frame).unwrap();
    assert_eq!(once.datagrams.len(), 1);
    assert_eq!(once.datagrams[0].header.slave_address, 2);
    let twice = f.filter_frame(once.clone()).unwrap();
    assert_eq!(twice.datagrams.len(), 1);
    assert_eq!(twice.datagrams[0].header.slave_address, 2);
    let mut none = FilterOptions::new();
    none.slave_ids = vec![9];
    assert!(none.filter_frame(once).is_none());
}

#[test]
fn empty_filter_keeps_frames_with_datagrams() {
    let raw = make_test_frame_raw();
    let frame = parse_ethercat_frame(&raw).unwrap();
    let f = FilterOptions::new();
    assert!(f.matches_frame(&frame));
    let kept = f.filter_frame(frame.clone()).unwrap();
    assert_eq!(kept.datagrams.len(), frame.datagrams.len());
    assert_eq!(kept.timestamp_ns, frame.timestamp_ns);

    let empty = parse_ethercat_frame(&raw_from(ethernet_prefix(0, 0))).unwrap();
    assert!(empty.datagrams.is_empty());
    assert!(f.matches_frame(&empty));
    assert!(f.filter_frame(empty).is_none());
}

#[test]
fn error_messages() {
    assert_eq!(
        ParseError::EthernetTooShort(10).message(),
        "Packet too short for Ethernet header: 10 bytes"
    );
    assert_eq!(
        ParseError::NotEthercat(0x0800).message(),
        "Not an EtherCAT frame. Ethertype: 0x0800, expected: 0x88a4"
    );
    assert_eq!(
        ParseError::EthercatHeaderTooShort.message(),
        "Packet too short for EtherCAT header"
    );
    assert_eq!(ParseError::DatagramTooShort(7).message(), "Datagram too short: 7 bytes");
    assert_eq!(
        ParseError::DatagramTruncated { need: 24, have: 20 }.message(),
        "Datagram truncated: need 24 bytes, have 20"
    );
    assert_eq!(ParseError::MailboxTooShort.message(), "Mailbox data too short");
    assert_eq!(ParseError::InvalidMailboxLength.message(), "Invalid mailbox length");
    assert_eq!(ParseError::SdoTooShort.message(), "SDO data too short");
}

#[test]
fn al_error_texts() {
    assert_eq!(describe_al_error(0x0000), "No error");
    assert_eq!(describe_al_error(0x001A), "Synchronization error");
    assert_eq!(describe_al_error(0x0030), "Invalid DC SYNC configuration");
    assert_eq!(describe_al_error(0x1234), "Unknown AL error code: 0x00001234");
}

#[test]
fn empty_mailbox_header_falls_back_to_process_data() {
    let dg = datagram(0x0C, 4, 0x1000, &[0u8; 6], false, 1);
    let mut data = ethernet_prefix(dg.len() as u16, 1);
    data.extend_from_slice(&dg);
    let frame = parse_ethercat_frame(&raw_from(data)).unwrap();
    let d = &frame.datagrams[0];
    assert!(d.mailbox.is_none());
    assert_eq!(d.pdo.as_ref().unwrap().slave_id, 4);
    assert_eq!(d.pdo.as_ref().unwrap().pdo_index, 0x1600);
}

#[test]
fn sdo_abort_carries_its_code() {
    // Mailbox header (type CoE), then an SDO payload whose first byte has the
    // abort bit set; the abort code sits in bytes 4..8.
    let mut mbx = vec![0x10, 0x00, 0x02, 0x00, 0x00, 0x03];
    mbx.extend_from_slice(&[0x81, 0x80, 0x00, 0x60, 0x11, 0x00, 0x02, 0x06, 0xAA, 0xBB]);
    let dg = datagram(0x06, 2, 0x1000, &mbx, false, 1);
    let mut data = ethernet_prefix(dg.len() as u16, 1);
    data.extend_from_slice(&dg);
    let frame = parse_ethercat_frame(&raw_from(data)).unwrap();
    let m = frame.datagrams[0].mailbox.as_ref().unwrap();
    let sdo = m.sdo.as_ref().unwrap();
    assert!(sdo.request);
    assert_eq!(sdo.index, 0x6000);
    assert_eq!(sdo.subindex, 0x11);
    assert_eq!(sdo.error_code, Some(0x0602_0011));
    assert_eq!(sdo.data, vec![0xAA, 0xBB]);
    assert!(sdo.completed);
}

/// Frames built like those of the integration scenarios: process-data
/// datagrams announce 12 data bytes but carry 8.
fn frame_announcing_more_than_it_carries(slave_count: u16) -> Vec<u8> {
    let mut body = Vec::new();
    for i in 0..slave_count {
        let sid = i + 1;
        body.extend_from_slice(&[0x0C, i as u8]);
        body.extend_from_slice(&sid.to_le_bytes());
        body.extend_from_slice(&0x0010u16.to_le_bytes());
        let nflag: u16 = if i + 1 == slave_count { 0 } else { 1 << 15 };
        body.extend_from_slice(&(12u16 | nflag).to_le_bytes());
        body.extend_from_slice(&0u16.to_le_bytes());
        body.extend_from_slice(&((i as i32) * 1000 + 500).to_le_bytes());
        body.extend_from_slice(&((i as i16) * 100 + 200).to_le_bytes());
        body.extend_from_slice(&(0xFF00u16 | i).to_le_bytes());
        body.extend_from_slice(&1u16.to_le_bytes());
    }
    let mut data = ethernet_prefix(body.len() as u16, slave_count as u8);
    data.extend(body);
    data
}

#[test]
fn frames_announcing_more_data_than_they_carry_are_refused() {
    let raw = raw_from(frame_announcing_more_than_it_carries(5));
    assert_eq!(
        parse_ethercat_frame(&raw).unwrap_err(),
        ParseError::DatagramTruncated { need: 1512, have: 76 }
    );
}
