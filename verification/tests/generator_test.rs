use ethercat_parser::ethercat_parser::{parse_ethercat_frame, FrameHeader, ParseError, RawEthercatFrame};
use ethercat_parser::generator::{build_ethercat_frame, build_template, can_generate, generate_capture};
use ethercat_parser::io_reader::{FrameReader, RawFileReader};
use ethercat_parser::pdo_converter::PdoConverter;
use ethercat_parser::{EthercatCommand, AL_ERROR_CODE_REG};

const CODES: [u32; 4] = [0x0011, 0x001A, 0x0027, 0x0030];

fn raw(data: Vec<u8>) -> RawEthercatFrame {
    let header = FrameHeader::parse(&data).unwrap();
    RawEthercatFrame { timestamp_ns: 1, frame_length: data.len(), data, header }
}

#[test]
fn generated_fault_frame_reads_back() {
    let mut rng = rand::rng();
    assert!(can_generate(1, 23, true, &CODES));
    let bytes = build_ethercat_frame(&mut rng, 1, 23, true, &CODES);
    assert_eq!(bytes[0], 0x01);
    let frame = parse_ethercat_frame(&raw(bytes)).unwrap();
    assert_eq!(frame.datagrams.len(), 1);
    let dg = &frame.datagrams[0];
    assert_eq!(dg.header.command, EthercatCommand::LRW);
    assert_eq!(dg.header.slave_address, 1);
    assert_eq!(dg.header.register_offset, AL_ERROR_CODE_REG);
    assert!(dg.is_fault);
    assert_eq!(dg.fault_code, Some(0x0030));
    assert!((1..=8).contains(&dg.header.working_counter));
}

#[test]
fn generated_process_data_frame_decodes() {
    let mut rng = rand::rng();
    let bytes = build_ethercat_frame(&mut rng, 1, 0, false, &CODES);
    assert_eq!(bytes.len(), 18 + 20);
    assert_eq!(bytes[14], 20);
    let frame = parse_ethercat_frame(&raw(bytes)).unwrap();
    assert_eq!(frame.datagrams.len(), 1);
    let dg = &frame.datagrams[0];
    assert_eq!(dg.header.data_length, 8);
    assert_eq!(dg.header.register_offset, 0x0010);
    assert_eq!(dg.data, vec![50, 0, 0, 0, 10, 0, 0x01, 0xFF]);
    assert!(!dg.is_fault);
}

#[test]
fn generated_frame_with_many_slaves_decodes() {
    let mut rng = rand::rng();
    let bytes = build_ethercat_frame(&mut rng, 5, 23, true, &CODES);
    let frame = parse_ethercat_frame(&raw(bytes)).unwrap();
    assert_eq!(frame.datagrams.len(), 5);
    for (i, dg) in frame.datagrams.iter().enumerate() {
        assert_eq!(dg.header.slave_address as usize, i + 1);
        assert_eq!(dg.is_fault, i == 3);
    }
    assert_eq!(frame.datagrams[3].fault_code, Some(0x0030));
}

#[test]
fn generation_checks() {
    assert!(can_generate(5, 0, false, &[]));
    assert!(!can_generate(5, 23, true, &[]));
    assert!(can_generate(5, 22, true, &[]));
    assert!(!can_generate(1, 30_000_000, false, &CODES));
}

#[test]
fn generated_template_names_its_slaves() {
    let t = build_template(3);
    assert_eq!(t.version, "1.0");
    assert_eq!(t.production_line, "Production-Line-A");
    assert_eq!(t.slaves.len(), 3);
    for (i, s) in t.slaves.iter().enumerate() {
        assert_eq!(s.slave_id as usize, i + 1);
        assert_eq!(s.registers.len(), 10);
        for r in &s.registers {
            assert!(!r.name.is_empty());
            assert!(!r.data_type.is_empty());
        }
    }
    let mut conv = PdoConverter::new();
    conv.load_parsed_template(t);
    assert_eq!(conv.get_slave_device_name(2), Some("Slave-Device-2"));
    assert_eq!(conv.get_slave_device_name(3), Some("Slave-Device-3"));
    assert_eq!(conv.get_slave_device_name(4), None);
    assert_eq!(conv.get_slave_device_name(0), None);
}

#[test]
fn generated_capture_reads_back_frame_by_frame() {
    let mut rng = rand::rng();
    let bytes = generate_capture(&mut rng, 3, 1, true, &CODES);
    let mut reader = RawFileReader::from_bytes(bytes);
    // Each record comes back whole, with its timestamp, and decodes.
    for i in 0..3u64 {
        let f = reader.read_next_frame().unwrap().unwrap();
        assert_eq!(f.timestamp_ns, 1_700_000_000_000_000_000 + i * 1_000_000);
        assert_eq!(f.header.ethertype, 0x88A4);
        assert_eq!(f.header.ec_header.num_datagrams, 1);
        assert_eq!(f.frame_length, 38);
        assert_eq!(parse_ethercat_frame(&f).unwrap().datagrams.len(), 1);
    }
    assert!(reader.read_next_frame().unwrap().is_none());
}
