use ethercat_parser::cli::{
    build_filter_options, parse_fault_code, parse_fault_codes, CommandTypeArg, MailboxTypeArg,
    OutputFormat, ParseArgs,
};
use ethercat_parser::{EthercatCommand, MailboxType};

#[test]
fn test_parse_fault_codes() {
    let inputs = vec![
        "0x0011".to_string(),
        "0X001A".to_string(),
        "0xFFFF".to_string(),
    ];
    let result = parse_fault_codes(&inputs);
    assert_eq!(result, vec![0x0011, 0x001A, 0xFFFF]);
}

#[test]
fn test_mailbox_type_arg() {
    assert_eq!(MailboxTypeArg::CoE.to_mailbox_type(), MailboxType::CoE);
    assert_eq!(MailboxTypeArg::FoE.to_mailbox_type(), MailboxType::FoE);
    assert_eq!(MailboxTypeArg::EoE.to_mailbox_type(), MailboxType::EoE);
}

#[test]
fn test_command_type_arg() {
    assert_eq!(CommandTypeArg::LRW.to_ethercat_command(), EthercatCommand::LRW);
    assert_eq!(CommandTypeArg::APRD.to_ethercat_command(), EthercatCommand::APRD);
}

#[test]
fn fault_code_accepts_plain_hex_and_surrounding_space() {
    assert_eq!(parse_fault_code("1a"), Some(0x1A));
    assert_eq!(parse_fault_code("  0x0030 "), Some(0x30));
    assert_eq!(parse_fault_code("ffffffff"), Some(0xFFFF_FFFF));
}

#[test]
fn fault_code_refuses_bad_text() {
    assert_eq!(parse_fault_code(""), None);
    assert_eq!(parse_fault_code("0x"), None);
    assert_eq!(parse_fault_code("0xZZ"), None);
    assert_eq!(parse_fault_code("100000000"), None);
}

#[test]
fn fault_codes_skip_invalid_entries() {
    let inputs = vec!["0x11".to_string(), "nope".to_string(), "27".to_string()];
    assert_eq!(parse_fault_codes(&inputs), vec![0x11, 0x27]);
}

#[test]
fn filter_options_from_arguments() {
    let args = ParseArgs {
        input: None,
        template: None,
        format: OutputFormat::Table,
        output_file: None,
        slave_ids: vec![1, 3],
        msg_types: vec![MailboxTypeArg::CoE, MailboxTypeArg::SoE],
        fault_codes: vec!["0x0011".to_string(), "nope".to_string()],
        commands: vec![CommandTypeArg::LRW, CommandTypeArg::FPRD],
        errors_only: false,
        no_color: true,
        limit: None,
        verbose: 0,
    };
    let f = build_filter_options(&args);
    assert_eq!(f.slave_ids, vec![1, 3]);
    assert_eq!(f.msg_types, vec![MailboxType::CoE, MailboxType::SoE]);
    assert_eq!(f.fault_codes, vec![0x0011]);
    assert_eq!(f.commands, vec![EthercatCommand::LRW, EthercatCommand::FPRD]);
}

#[test]
fn fault_code_accepts_plus_sign_and_repeated_prefix() {
    assert_eq!(parse_fault_code("+1a"), Some(0x1A));
    assert_eq!(parse_fault_code("0x0x11"), Some(0x11));
}

#[test]
fn fault_codes_of_joined_lists_are_joined() {
    let a = vec!["zz".to_string(), " 0x10 ".to_string()];
    let b = vec!["1A".to_string(), "0x1_0".to_string()];
    let mut ab = a.clone();
    ab.extend(b.clone());
    let mut joined = parse_fault_codes(&a);
    joined.extend(parse_fault_codes(&b));
    assert_eq!(parse_fault_codes(&ab), joined);
    assert_eq!(parse_fault_codes(&ab), vec![0x10, 0x1A]);
}
