use ethercat_parser::cli::OutputFormat;
use ethercat_parser::ethercat_parser::{FilterOptions, FrameHeader, ParseError, RawEthercatFrame};
use ethercat_parser::io_reader::InputSource;
use ethercat_parser::pdo_converter::PdoConverter;
use ethercat_parser::pipeline::{
    has_error, input_source, limit_reached, next_step, prints_summary, process_frame, LoopStep, ProcessError,
};
use ethercat_parser::{ParseStats, AL_ERROR_CODE_REG, AL_STATUS_REG};

fn frame(datagrams: &[(u16, u16, Vec<u8>)]) -> RawEthercatFrame {
    let mut body = Vec::new();
    for (i, (slave, reg, payload)) in datagrams.iter().enumerate() {
        body.extend_from_slice(&[0x0C, i as u8]);
        body.extend_from_slice(&slave.to_le_bytes());
        body.extend_from_slice(&reg.to_le_bytes());
        let more: u16 = if i + 1 < datagrams.len() { 1 << 15 } else { 0 };
        body.extend_from_slice(&((payload.len() as u16) | more).to_le_bytes());
        body.extend_from_slice(&0u16.to_le_bytes());
        body.extend_from_slice(payload);
        body.extend_from_slice(&1u16.to_le_bytes());
    }
    let mut data = vec![0x01, 0, 0, 0, 0, 0, 2, 0, 0, 0, 0, 0, 0x88, 0xA4];
    data.push((body.len() & 0xFF) as u8);
    data.push(((body.len() >> 8) & 0x07) as u8);
    data.push(0);
    data.push(datagrams.len() as u8);
    data.extend(body);
    let header = FrameHeader::parse(&data).unwrap();
    RawEthercatFrame { timestamp_ns: 9, frame_length: data.len(), data, header }
}

#[test]
fn process_counts_converts_and_selects() {
    let conv = PdoConverter::new();
    let mut stats = ParseStats::default();
    let raw = frame(&[
        (1, 0x0010, vec![1, 2, 3, 4]),
        (2, AL_STATUS_REG, vec![0x08, 0x00]),
        (3, AL_ERROR_CODE_REG, 0x0011u32.to_le_bytes().to_vec()),
    ]);
    let all = process_frame(&conv, &mut stats, &FilterOptions::new(), false, &raw).unwrap().unwrap();
    assert_eq!(all.datagrams.len(), 3);
    assert!(has_error(&all));
    let state = all.datagrams[1].pdo.as_ref().unwrap().entries.get(&AL_STATUS_REG).unwrap();
    assert_eq!(state.name.as_deref(), Some("AL Status"));
    assert_eq!(stats.total_frames, 1);
    assert_eq!(stats.total_datagrams, 3);
    assert_eq!(stats.fault_count, 1);

    let quiet = frame(&[(1, 0x0010, vec![1, 2])]);
    let none = process_frame(&conv, &mut stats, &FilterOptions::new(), true, &quiet).unwrap();
    assert!(none.is_none());
    assert_eq!(stats.total_frames, 2);

    let mut f = FilterOptions::new();
    f.slave_ids = vec![3];
    let only = process_frame(&conv, &mut stats, &f, true, &raw).unwrap().unwrap();
    assert_eq!(only.datagrams.len(), 1);
    assert_eq!(only.datagrams[0].fault_code, Some(0x0011));

    let mut clean = FilterOptions::new();
    clean.slave_ids = vec![1];
    let hidden = process_frame(&conv, &mut stats, &clean, true, &raw).unwrap();
    assert!(hidden.is_none());
    let shown = process_frame(&conv, &mut stats, &clean, false, &raw).unwrap().unwrap();
    assert_eq!(shown.datagrams.len(), 1);
}

#[test]
fn malformed_frames_are_refused_without_counting() {
    let conv = PdoConverter::new();
    let mut stats = ParseStats::default();
    let mut raw = frame(&[(1, 0x0010, vec![1, 2, 3, 4])]);
    raw.data.truncate(raw.data.len() - 3);
    let r = process_frame(&conv, &mut stats, &FilterOptions::new(), false, &raw);
    assert_eq!(
        r.unwrap_err(),
        ProcessError::Malformed(ParseError::DatagramTruncated { need: 16, have: 13 })
    );
    assert_eq!(stats.total_frames, 0);
}

#[test]
fn counter_overflow_is_refused() {
    let conv = PdoConverter::new();
    let mut stats = ParseStats::default();
    stats.total_frames = u64::MAX;
    let raw = frame(&[(1, 0x0010, vec![1, 2])]);
    let r = process_frame(&conv, &mut stats, &FilterOptions::new(), false, &raw);
    assert_eq!(r.unwrap_err(), ProcessError::CounterOverflow);
    assert_eq!(stats.total_frames, u64::MAX);
    assert_eq!(stats.total_datagrams, 0);
}

#[test]
fn driving_decisions() {
    assert!(matches!(input_source(None), InputSource::Stdin));
    assert!(matches!(input_source(Some("-".to_string())), InputSource::Stdin));
    match input_source(Some("cap.pcap".to_string())) {
        InputSource::File(p) => assert_eq!(p, "cap.pcap"),
        InputSource::Stdin => panic!("a path should be read as a file"),
    }
    assert!(!limit_reached(None, 100));
    assert!(!limit_reached(Some(0), 100));
    assert!(!limit_reached(Some(3), 2));
    assert!(limit_reached(Some(3), 3));
    assert!(prints_summary(OutputFormat::Summary, 0));
    assert!(prints_summary(OutputFormat::Pretty, 0));
    assert!(!prints_summary(OutputFormat::Csv, 0));
    assert!(prints_summary(OutputFormat::Json, 1));
}

#[test]
fn loop_steps_skip_count_and_stop() {
    match next_step(Err(ProcessError::Malformed(ParseError::EthernetTooShort(3))), 4, Some(5), 2) {
        LoopStep::Skip { error, warn } => {
            assert_eq!(error, ParseError::EthernetTooShort(3));
            assert!(warn);
        }
        _ => panic!("a malformed frame is skipped"),
    }
    match next_step(Err(ProcessError::Malformed(ParseError::EthernetTooShort(3))), 4, Some(5), 1) {
        LoopStep::Skip { warn, .. } => assert!(!warn),
        _ => panic!("a malformed frame is skipped"),
    }
    assert!(matches!(next_step(Err(ProcessError::CounterOverflow), 4, None, 0), LoopStep::Overflow));
    match next_step(Ok(None), 4, Some(5), 0) {
        LoopStep::Counted { parsed, output, stop } => {
            assert_eq!(parsed, 5);
            assert!(output.is_none());
            assert!(stop);
        }
        _ => panic!("an accepted frame is counted"),
    }
    match next_step(Ok(None), 4, Some(0), 0) {
        LoopStep::Counted { parsed, stop, .. } => {
            assert_eq!(parsed, 5);
            assert!(!stop);
        }
        _ => panic!("an accepted frame is counted"),
    }
}
