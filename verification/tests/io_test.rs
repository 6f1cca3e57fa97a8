use ethercat_parser::io_reader::{
    check_link_type, create_reader, encode_raw_record, pcap_magic_kind, pcap_timestamp_ns,
    FillStep, FrameReader, InputSource, PcapFileReader, RawFileReader, ReadEvent, ReaderError,
    ReaderKind, StdinReader, PCAP_MAGIC, PCAP_MAGIC_NS, PCAP_MAGIC_REVERSED,
};
use ethercat_parser::ethercat_parser::ParseError;

fn make_test_raw_frame() -> Vec<u8> {
    let mut frame = Vec::new();
    frame.extend_from_slice(&[0x01, 0x01, 0x05, 0x04, 0x00, 0x00]);
    frame.extend_from_slice(&[0x08, 0x06, 0x07, 0x08, 0x09, 0x0a]);
    frame.extend_from_slice(&0x88A4u16.to_be_bytes());
    let mut ec_header = vec![0x00u8; 4];
    ec_header[0] = 0x0e;
    ec_header[1] = 0x00;
    let payload_len: u16 = 16;
    ec_header[2] = (payload_len & 0x07FF) as u8;
    ec_header[3] = ((payload_len >> 3) & 0xFF) as u8 | 0x10;
    let datagram = vec![
        0x0c, 0x01, 0x00, 0x00, 0x01, 0x00, 0x10, 0x00,
        0x00, 0x00, 0x00, 0x00, 0x00, 0x00, 0x00, 0x00,
    ];
    let mut result = frame;
    result.extend_from_slice(&ec_header);
    result.extend_from_slice(&datagram);
    result
}

#[test]
fn test_raw_file_reader() {
    let frame_data = make_test_raw_frame();
    let mut buf = Vec::new();
    buf.extend_from_slice(&(frame_data.len() as u32).to_le_bytes());
    buf.extend_from_slice(&123456789u64.to_le_bytes());
    buf.extend_from_slice(&frame_data);
    let mut reader = RawFileReader::from_bytes(buf);
    let frame = reader.read_next_frame().unwrap().unwrap();
    assert_eq!(frame.timestamp_ns, 123456789);
    assert_eq!(frame.frame_length, frame_data.len());
    assert!(reader.read_next_frame().unwrap().is_none());
}

#[test]
fn raw_record_written_reads_back() {
    let frame_data = make_test_raw_frame();
    let mut bytes = encode_raw_record(1_700_000_000_000_000_000, &frame_data);
    bytes.extend(encode_raw_record(7, &frame_data));
    let mut reader = RawFileReader::from_bytes(bytes);
    let a = reader.read_next_frame().unwrap().unwrap();
    assert_eq!(a.timestamp_ns, 1_700_000_000_000_000_000);
    assert_eq!(a.data, frame_data);
    assert_eq!(a.header.ethertype, 0x88A4);
    let b = reader.read_next_frame().unwrap().unwrap();
    assert_eq!(b.timestamp_ns, 7);
    assert!(reader.read_next_frame().unwrap().is_none());
}

#[test]
fn raw_record_encoding_layout() {
    let r = encode_raw_record(0x0102030405060708, &[0xAA, 0xBB]);
    assert_eq!(
        r,
        vec![2, 0, 0, 0, 8, 7, 6, 5, 4, 3, 2, 1, 0xAA, 0xBB]
    );
}

#[test]
fn raw_file_errors() {
    let mut short = RawFileReader::from_bytes(vec![1, 2, 3]);
    assert!(short.read_next_frame().unwrap().is_none());
    let mut cut = RawFileReader::from_bytes(vec![40, 0, 0, 0, 1, 2, 3, 4, 5, 6, 7, 8, 9]);
    assert_eq!(cut.read_next_frame().unwrap_err(), ReaderError::ShortRead);
    let mut bad = RawFileReader::from_bytes(encode_raw_record(1, &[0u8; 8]));
    assert_eq!(
        bad.read_next_frame().unwrap_err(),
        ReaderError::Frame(ParseError::EthernetTooShort(8))
    );
}

fn pcap_global_header(magic: u32, link: u32) -> Vec<u8> {
    let mut h = Vec::new();
    h.extend_from_slice(&magic.to_le_bytes());
    h.extend_from_slice(&2u16.to_le_bytes());
    h.extend_from_slice(&4u16.to_le_bytes());
    h.extend_from_slice(&0i32.to_le_bytes());
    h.extend_from_slice(&0u32.to_le_bytes());
    h.extend_from_slice(&65535u32.to_le_bytes());
    h.extend_from_slice(&link.to_le_bytes());
    h
}

fn pcap_record(sec: u32, sub: u32, data: &[u8]) -> Vec<u8> {
    let mut r = Vec::new();
    r.extend_from_slice(&sec.to_le_bytes());
    r.extend_from_slice(&sub.to_le_bytes());
    r.extend_from_slice(&(data.len() as u32).to_le_bytes());
    r.extend_from_slice(&(data.len() as u32).to_le_bytes());
    r.extend_from_slice(data);
    r
}

#[test]
fn pcap_reader_skips_other_traffic() {
    let mut file = pcap_global_header(PCAP_MAGIC, 1);
    let mut ipv4 = vec![0u8; 40];
    ipv4[12] = 0x08;
    file.extend(pcap_record(10, 5, &ipv4));
    file.extend(pcap_record(1_700_000_000, 250, &make_test_raw_frame()));
    let mut reader = PcapFileReader::from_bytes(file).unwrap();
    let f = reader.read_next_frame().unwrap().unwrap();
    assert_eq!(f.timestamp_ns, 1_700_000_000_000_250_000);
    assert_eq!(f.frame_length, make_test_raw_frame().len());
    assert!(reader.read_next_frame().unwrap().is_none());
}

#[test]
fn pcap_nanosecond_timestamps() {
    let mut file = pcap_global_header(PCAP_MAGIC_NS, 1);
    file.extend(pcap_record(2, 250, &make_test_raw_frame()));
    let mut reader = PcapFileReader::from_bytes(file).unwrap();
    let f = reader.read_next_frame().unwrap().unwrap();
    assert_eq!(f.timestamp_ns, 2_000_000_250);
}

#[test]
fn pcap_header_errors() {
    assert_eq!(
        PcapFileReader::from_bytes(pcap_global_header(PCAP_MAGIC_REVERSED, 1)).err(),
        Some(ReaderError::BigEndianPcap)
    );
    assert_eq!(
        PcapFileReader::from_bytes(pcap_global_header(0x12345678, 1)).err(),
        Some(ReaderError::InvalidMagic(0x12345678))
    );
    assert_eq!(
        PcapFileReader::from_bytes(pcap_global_header(PCAP_MAGIC, 105)).err(),
        Some(ReaderError::UnsupportedLinkType(105))
    );
    assert_eq!(
        PcapFileReader::from_bytes(vec![0xd4, 0xc3]).err(),
        Some(ReaderError::ShortRead)
    );
    assert_eq!(
        ReaderError::UnsupportedLinkType(105).message(),
        "Unsupported link type: 105. Expected Ethernet (DLT_EN10MB=1)"
    );
    assert_eq!(
        ReaderError::InvalidMagic(0x12345678).message(),
        "Invalid pcap magic number: 0x12345678"
    );
}

#[test]
fn pcap_helpers() {
    assert_eq!(pcap_magic_kind(PCAP_MAGIC), Ok(false));
    assert_eq!(pcap_magic_kind(PCAP_MAGIC_NS), Ok(true));
    assert_eq!(check_link_type(1), Ok(()));
    assert_eq!(pcap_timestamp_ns(3, 4, false), 3_000_004_000);
    assert_eq!(pcap_timestamp_ns(3, 4, true), 3_000_000_004);
}

#[test]
fn reader_chosen_by_extension() {
    assert_eq!(
        create_reader(InputSource::File("trace.PCAP".to_string())),
        ReaderKind::Pcap("trace.PCAP".to_string())
    );
    assert_eq!(
        create_reader(InputSource::File("dir/x.cap".to_string())),
        ReaderKind::Pcap("dir/x.cap".to_string())
    );
    assert_eq!(
        create_reader(InputSource::File("capture.bin".to_string())),
        ReaderKind::Raw("capture.bin".to_string())
    );
    assert_eq!(
        create_reader(InputSource::File("noext".to_string())),
        ReaderKind::Raw("noext".to_string())
    );
    assert_eq!(create_reader(InputSource::Stdin), ReaderKind::Stdin);
}

#[test]
fn stream_buffer_decodes_first_record() {
    let frame_data = make_test_raw_frame();
    let record = encode_raw_record(99, &frame_data);
    let mut buf = StdinReader::new();
    assert_eq!(buf.absorb(ReadEvent::Data(record[..5].to_vec()), 12), FillStep::Continue);
    assert_eq!(buf.absorb(ReadEvent::Interrupted, 12), FillStep::Continue);
    assert_eq!(buf.absorb(ReadEvent::Data(record[5..].to_vec()), 12), FillStep::Continue);
    assert_eq!(buf.len(), record.len());
    let size = buf.frame_size();
    assert_eq!(size, frame_data.len());
    let f = buf.take_frame(size).unwrap();
    assert_eq!(f.timestamp_ns, 99);
    assert_eq!(f.data, frame_data);
    assert_eq!(buf.len(), 0);
}

#[test]
fn stdin_records_read_back_like_a_raw_file() {
    let d1 = make_test_raw_frame();
    let mut d2 = make_test_raw_frame();
    d2[0] = 0x02;
    let mut bytes = encode_raw_record(11, &d1);
    bytes.extend(encode_raw_record(22, &d2));
    let mut buf = StdinReader::new();
    buf.absorb(ReadEvent::Data(bytes), 12);
    let n1 = buf.frame_size();
    let f1 = buf.take_frame(n1).unwrap();
    assert_eq!((f1.timestamp_ns, f1.data.clone(), f1.frame_length), (11, d1.clone(), d1.len()));
    let n2 = buf.frame_size();
    let f2 = buf.take_frame(n2).unwrap();
    assert_eq!((f2.timestamp_ns, f2.data.clone(), f2.frame_length), (22, d2.clone(), d2.len()));
    assert_eq!(buf.len(), 0);
    assert_eq!(buf.absorb(ReadEvent::Eof, 12), FillStep::EndOfStream);
}

#[test]
fn stream_buffer_end_of_stream() {
    let mut empty = StdinReader::new();
    assert_eq!(empty.absorb(ReadEvent::Eof, 12), FillStep::EndOfStream);
    let mut partial = StdinReader::new();
    partial.absorb(ReadEvent::Data(vec![1, 2, 3]), 12);
    assert_eq!(
        partial.absorb(ReadEvent::Eof, 12),
        FillStep::Failed(ReaderError::UnexpectedEof { need: 12, have: 3 })
    );
    assert_eq!(
        ReaderError::UnexpectedEof { need: 12, have: 3 }.message(),
        "Unexpected EOF: need 12 bytes, have 3"
    );
}

#[test]
fn stdin_records_read_back_whatever_the_chunking() {
    let d1 = make_test_raw_frame();
    let mut d2 = make_test_raw_frame();
    d2[0] = 0x02;
    let mut bytes = encode_raw_record(11, &d1);
    bytes.extend(encode_raw_record(22, &d2));
    for chunk in [1usize, 3, 7, 13, 50] {
        let mut buf = StdinReader::new();
        let mut frames = Vec::new();
        let mut chunks = bytes.chunks(chunk);
        loop {
            while buf.len() < 12 {
                match chunks.next() {
                    Some(c) => assert_eq!(buf.absorb(ReadEvent::Data(c.to_vec()), 12), FillStep::Continue),
                    None => break,
                }
            }
            if buf.len() < 12 {
                assert_eq!(buf.absorb(ReadEvent::Eof, 12), FillStep::EndOfStream);
                break;
            }
            let n = buf.frame_size();
            while buf.len() < 12 + n {
                let c = chunks.next().unwrap();
                buf.absorb(ReadEvent::Data(c.to_vec()), 12 + n);
            }
            let f = buf.take_frame(n).unwrap();
            frames.push((f.timestamp_ns, f.data.clone(), f.frame_length));
        }
        assert_eq!(frames, vec![(11, d1.clone(), d1.len()), (22, d2.clone(), d2.len())]);
    }
}
