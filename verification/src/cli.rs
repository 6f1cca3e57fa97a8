//! Command-line options of the parser and the filter built from them.

use crate::ethercat_parser::FilterOptions;
use crate::text::chars_of;
use crate::{EthercatCommand, MailboxType};
use vstd::prelude::*;

verus! {

/// How parsed frames are printed.
#[derive(Debug, Clone, Copy, PartialEq, Eq, Structural)]
pub enum OutputFormat {
    Json,
    Table,
    Csv,
    Summary,
    Pretty,
}

/// Mailbox type named on the command line.
#[derive(Debug, Clone, Copy, PartialEq, Eq, Structural)]
pub enum MailboxTypeArg {
    CoE,
    FoE,
    EoE,
    SoE,
    AoE,
    VoE,
}

/// The mailbox type that a command-line name denotes.
pub open spec fn spec_to_mailbox_type(a: MailboxTypeArg) -> MailboxType {
    match a {
        MailboxTypeArg::CoE => MailboxType::CoE,
        MailboxTypeArg::FoE => MailboxType::FoE,
        MailboxTypeArg::EoE => MailboxType::EoE,
        MailboxTypeArg::SoE => MailboxType::SoE,
        MailboxTypeArg::AoE => MailboxType::AoE,
        MailboxTypeArg::VoE => MailboxType::VOE,
    }
}

impl MailboxTypeArg {
    /// The mailbox type that this name denotes.
    pub fn to_mailbox_type(&self) -> (t: MailboxType)
        ensures
            t == spec_to_mailbox_type(*self),
    {
        match self {
            MailboxTypeArg::CoE => MailboxType::CoE,
            MailboxTypeArg::FoE => MailboxType::FoE,
            MailboxTypeArg::EoE => MailboxType::EoE,
            MailboxTypeArg::SoE => MailboxType::SoE,
            MailboxTypeArg::AoE => MailboxType::AoE,
            MailboxTypeArg::VoE => MailboxType::VOE,
        }
    }
}

/// Datagram command named on the command line.
#[derive(Debug, Clone, Copy, PartialEq, Eq, Structural)]
pub enum CommandTypeArg {
    APRD,
    APWR,
    APRW,
    FPRD,
    FPWR,
    FPRW,
    BRD,
    BWR,
    BRW,
    LRD,
    LWR,
    LRW,
    ARMW,
}

/// The datagram command that a command-line name denotes.
pub open spec fn spec_to_ethercat_command(a: CommandTypeArg) -> EthercatCommand {
    match a {
        CommandTypeArg::APRD => EthercatCommand::APRD,
        CommandTypeArg::APWR => EthercatCommand::APWR,
        CommandTypeArg::APRW => EthercatCommand::APRW,
        CommandTypeArg::FPRD => EthercatCommand::FPRD,
        CommandTypeArg::FPWR => EthercatCommand::FPWR,
        CommandTypeArg::FPRW => EthercatCommand::FPRW,
        CommandTypeArg::BRD => EthercatCommand::BRD,
        CommandTypeArg::BWR => EthercatCommand::BWR,
        CommandTypeArg::BRW => EthercatCommand::BRW,
        CommandTypeArg::LRD => EthercatCommand::LRD,
        CommandTypeArg::LWR => EthercatCommand::LWR,
        CommandTypeArg::LRW => EthercatCommand::LRW,
        CommandTypeArg::ARMW => EthercatCommand::ARMW,
    }
}

impl CommandTypeArg {
    /// The datagram command that this name denotes.
    pub fn to_ethercat_command(&self) -> (c: EthercatCommand)
        ensures
            c == spec_to_ethercat_command(*self),
    {
        match self {
            CommandTypeArg::APRD => EthercatCommand::APRD,
            CommandTypeArg::APWR => EthercatCommand::APWR,
            CommandTypeArg::APRW => EthercatCommand::APRW,
            CommandTypeArg::FPRD => EthercatCommand::FPRD,
            CommandTypeArg::FPWR => EthercatCommand::FPWR,
            CommandTypeArg::FPRW => EthercatCommand::FPRW,
            CommandTypeArg::BRD => EthercatCommand::BRD,
            CommandTypeArg::BWR => EthercatCommand::BWR,
            CommandTypeArg::BRW => EthercatCommand::BRW,
            CommandTypeArg::LRD => EthercatCommand::LRD,
            CommandTypeArg::LWR => EthercatCommand::LWR,
            CommandTypeArg::LRW => EthercatCommand::LRW,
            CommandTypeArg::ARMW => EthercatCommand::ARMW,
        }
    }
}

/// Options of the `parse` command.
pub struct ParseArgs {
    /// Capture file; `-` or none for standard input.
    pub input: Option<String>,
    /// Register mapping template file.
    pub template: Option<String>,
    pub format: OutputFormat,
    /// File to write the output to instead of standard output.
    pub output_file: Option<String>,
    pub slave_ids: Vec<u16>,
    pub msg_types: Vec<MailboxTypeArg>,
    /// AL fault codes in hexadecimal, with or without a `0x` prefix.
    pub fault_codes: Vec<String>,
    pub commands: Vec<CommandTypeArg>,
    pub errors_only: bool,
    pub no_color: bool,
    /// Stop after this many frames (0 or none: no limit).
    pub limit: Option<u64>,
    pub verbose: u8,
}

/// Options of the `template` command.
pub struct TemplateArgs {
    pub output: String,
    pub slave_count: u32,
}

/// Options of the `generate` command.
pub struct GenerateArgs {
    pub output: String,
    pub frames: u32,
    pub slaves: u16,
    pub include_faults: bool,
}

/// The commands of the program.
pub enum Commands {
    Parse(ParseArgs),
    Template(TemplateArgs),
    Generate(GenerateArgs),
}

/// The parsed command line.
pub struct CliArgs {
    pub command: Commands,
}

/// Whether a character has the Unicode White_Space property (what
/// `char::is_whitespace` tests).
pub open spec fn is_white_space(c: char) -> bool {
    ('\u{9}' <= c && c <= '\u{d}') || c == ' ' || c == '\u{85}' || c == '\u{a0}' || c
        == '\u{1680}' || ('\u{2000}' <= c && c <= '\u{200a}') || c == '\u{2028}' || c
        == '\u{2029}' || c == '\u{202f}' || c == '\u{205f}' || c == '\u{3000}'
}

/// `s` without its leading white space.
pub open spec fn spec_trim_start(s: Seq<char>) -> Seq<char>
    decreases s.len(),
{
    if s.len() > 0 && is_white_space(s[0]) {
        spec_trim_start(s.drop_first())
    } else {
        s
    }
}

/// `s` without its trailing white space.
pub open spec fn spec_trim_end(s: Seq<char>) -> Seq<char>
    decreases s.len(),
{
    if s.len() > 0 && is_white_space(s.last()) {
        spec_trim_end(s.drop_last())
    } else {
        s
    }
}

/// `s` without leading and trailing white space.
pub open spec fn spec_trim(s: Seq<char>) -> Seq<char> {
    spec_trim_end(spec_trim_start(s))
}

/// `s` without any repetitions of the two-character prefix `a b`.
pub open spec fn spec_strip_prefixes(s: Seq<char>, a: char, b: char) -> Seq<char>
    decreases s.len(),
{
    if s.len() >= 2 && s[0] == a && s[1] == b {
        spec_strip_prefixes(s.skip(2), a, b)
    } else {
        s
    }
}

/// Value of a hexadecimal digit character, if it is one.
pub open spec fn hex_digit_value(c: char) -> Option<nat> {
    if '0' <= c && c <= '9' {
        Some((c as nat - '0' as nat) as nat)
    } else if 'a' <= c && c <= 'f' {
        Some((c as nat - 'a' as nat + 10) as nat)
    } else if 'A' <= c && c <= 'F' {
        Some((c as nat - 'A' as nat + 10) as nat)
    } else {
        None
    }
}

/// Value of a string of hexadecimal digits, if every character is one.
pub open spec fn hex_digits_value(s: Seq<char>) -> Option<nat>
    decreases s.len(),
{
    if s.len() == 0 {
        Some(0)
    } else {
        match (hex_digits_value(s.drop_last()), hex_digit_value(s.last())) {
            (Some(h), Some(l)) => Some(h * 16 + l),
            _ => None,
        }
    }
}

/// The value of a hexadecimal 32-bit number as `u32::from_str_radix(_, 16)`
/// reads it: an optional '+', then at least one digit; nothing on any other
/// character or on overflow.
pub open spec fn spec_parse_hex_u32(s: Seq<char>) -> Option<u32> {
    let digits = if s.len() > 0 && s[0] == '+' {
        s.drop_first()
    } else {
        s
    };
    if digits.len() == 0 {
        None
    } else {
        match hex_digits_value(digits) {
            Some(v) => if v <= u32::MAX {
                Some(v as u32)
            } else {
                None
            },
            None => None,
        }
    }
}

/// The fault code that one command-line value gives: surrounding white space,
/// then any `0x` prefixes, then any `0X` prefixes are removed and the rest is
/// read as hexadecimal.
pub open spec fn spec_fault_code(s: Seq<char>) -> Option<u32> {
    spec_parse_hex_u32(spec_strip_prefixes(spec_strip_prefixes(spec_trim(s), '0', 'x'), '0', 'X'))
}

/// The fault codes of the values that read as one, in order.
pub open spec fn spec_parse_fault_codes(ss: Seq<Seq<char>>) -> Seq<u32>
    decreases ss.len(),
{
    if ss.len() == 0 {
        Seq::empty()
    } else {
        let prev = spec_parse_fault_codes(ss.drop_last());
        match spec_fault_code(ss.last()) {
            Some(v) => prev.push(v),
            None => prev,
        }
    }
}


fn white_space(c: char) -> (r: bool)
    ensures
        r == is_white_space(c),
{
    ('\u{9}' <= c && c <= '\u{d}') || c == ' ' || c == '\u{85}' || c == '\u{a0}' || c
        == '\u{1680}' || ('\u{2000}' <= c && c <= '\u{200a}') || c == '\u{2028}' || c
        == '\u{2029}' || c == '\u{202f}' || c == '\u{205f}' || c == '\u{3000}'
}

fn digit_value(c: char) -> (r: Option<u32>)
    ensures
        match hex_digit_value(c) {
            Some(v) => r == Some(v as u32),
            None => r is None,
        },
{
    if '0' <= c && c <= '9' {
        Some(c as u32 - '0' as u32)
    } else if 'a' <= c && c <= 'f' {
        Some(c as u32 - 'a' as u32 + 10)
    } else if 'A' <= c && c <= 'F' {
        Some(c as u32 - 'A' as u32 + 10)
    } else {
        None
    }
}

proof fn lemma_hex_prefix(s: Seq<char>, k: int)
    requires
        0 <= k <= s.len(),
        hex_digits_value(s) is Some,
    ensures
        hex_digits_value(s.take(k)) is Some,
        hex_digits_value(s.take(k))->Some_0 <= hex_digits_value(s)->Some_0,
    decreases s.len(),
{
    if k == s.len() {
        assert(s.take(k) =~= s);
    } else {
        lemma_hex_prefix(s.drop_last(), k);
        assert(s.drop_last().take(k) =~= s.take(k));
    }
}

/// Reads the characters `v[start..end]` as `u32::from_str_radix(_, 16)` does.
fn parse_hex_u32(v: &Vec<char>, start: usize, end: usize) -> (r: Option<u32>)
    requires
        start <= end <= v@.len(),
    ensures
        r == spec_parse_hex_u32(v@.subrange(start as int, end as int)),
{
    let ghost s = v@.subrange(start as int, end as int);
    let mut a = start;
    if a < end && v[a] == '+' {
        a = a + 1;
    }
    let ghost digits = v@.subrange(a as int, end as int);
    assert(digits =~= if s.len() > 0 && s[0] == '+' {
        s.drop_first()
    } else {
        s
    });
    if a == end {
        return None;
    }
    let mut acc: u64 = 0;
    let mut overflow = false;
    let mut i = a;
    while i < end
        invariant
            a <= i <= end,
            end <= v@.len(),
            digits == v@.subrange(a as int, end as int),
            s == v@.subrange(start as int, end as int),
            digits == (if s.len() > 0 && s[0] == '+' {
                s.drop_first()
            } else {
                s
            }),
            digits.len() > 0,
            acc <= u32::MAX,
            hex_digits_value(digits.take(i - a)) is Some,
            !overflow ==> hex_digits_value(digits.take(i - a))->Some_0 == acc,
            overflow ==> hex_digits_value(digits.take(i - a))->Some_0 > u32::MAX,
        decreases end - i,
    {
        proof {
            assert(digits.take(i - a + 1).drop_last() =~= digits.take(i - a));
            assert(digits.take(i - a + 1).last() == v@[i as int]);
        }
        match digit_value(v[i]) {
            Some(d) => {
                if !overflow {
                    if acc * 16 + d as u64 > u32::MAX as u64 {
                        overflow = true;
                    } else {
                        acc = acc * 16 + d as u64;
                    }
                }
            },
            None => {
                proof {
                    assert(digits[i - a] == v@[i as int]);
                    lemma_none_extends(digits, i - a);
                    assert(hex_digits_value(digits) is None);
                    assert(spec_parse_hex_u32(s) is None);
                }
                return None;
            },
        }
        i = i + 1;
    }
    assert(digits.take(end - a) =~= digits);
    if overflow {
        None
    } else {
        Some(acc as u32)
    }
}

proof fn lemma_none_extends(s: Seq<char>, k: int)
    requires
        0 <= k < s.len(),
        hex_digit_value(s[k]) is None,
    ensures
        hex_digits_value(s) is None,
{
    if hex_digits_value(s) is Some {
        lemma_hex_prefix(s, k + 1);
        assert(s.take(k + 1).last() == s[k]);
    }
}

/// The fault code that one command-line value gives (see `spec_fault_code`).
pub fn parse_fault_code(s: &str) -> (r: Option<u32>)
    ensures
        r == spec_fault_code(s@),
{
    let v = chars_of(s);
    let n = v.len();
    let mut a: usize = 0;
    assert(v@.subrange(0, n as int) =~= v@);
    while a < n && white_space(v[a])
        invariant
            a <= n,
            n == v@.len(),
            spec_trim_start(v@) == spec_trim_start(v@.subrange(a as int, n as int)),
        decreases n - a,
    {
        assert(v@.subrange(a as int, n as int).drop_first() =~= v@.subrange(a + 1, n as int));
        a = a + 1;
    }
    assert(spec_trim_start(v@) == v@.subrange(a as int, n as int));
    let mut b: usize = n;
    while b > a && white_space(v[b - 1])
        invariant
            a <= b <= n,
            n == v@.len(),
            spec_trim(v@) == spec_trim_end(v@.subrange(a as int, b as int)),
        decreases b,
    {
        assert(v@.subrange(a as int, b as int).drop_last() =~= v@.subrange(a as int, b - 1));
        b = b - 1;
    }
    assert(spec_trim(v@) == v@.subrange(a as int, b as int));
    let ghost trimmed = v@.subrange(a as int, b as int);
    while b - a >= 2 && v[a] == '0' && v[a + 1] == 'x'
        invariant
            a <= b <= n,
            n == v@.len(),
            spec_strip_prefixes(trimmed, '0', 'x') == spec_strip_prefixes(
                v@.subrange(a as int, b as int),
                '0',
                'x',
            ),
        decreases b - a,
    {
        assert(v@.subrange(a as int, b as int).skip(2) =~= v@.subrange(a + 2, b as int));
        a = a + 2;
    }
    let ghost no_lower = v@.subrange(a as int, b as int);
    assert(spec_strip_prefixes(trimmed, '0', 'x') == no_lower);
    while b - a >= 2 && v[a] == '0' && v[a + 1] == 'X'
        invariant
            a <= b <= n,
            n == v@.len(),
            spec_strip_prefixes(no_lower, '0', 'X') == spec_strip_prefixes(
                v@.subrange(a as int, b as int),
                '0',
                'X',
            ),
        decreases b - a,
    {
        assert(v@.subrange(a as int, b as int).skip(2) =~= v@.subrange(a + 2, b as int));
        a = a + 2;
    }
    parse_hex_u32(&v, a, b)
}

/// The fault codes of the command-line values that read as one, in order;
/// values that do not read as a hexadecimal 32-bit number are left out.
pub fn parse_fault_codes(hex_strings: &[String]) -> (codes: Vec<u32>)
    ensures
        codes@ == spec_parse_fault_codes(hex_strings@.map_values(|s: String| s@)),
{
    let ghost views = hex_strings@.map_values(|s: String| s@);
    let mut codes: Vec<u32> = Vec::new();
    let mut i: usize = 0;
    while i < hex_strings.len()
        invariant
            i <= hex_strings@.len(),
            views == hex_strings@.map_values(|s: String| s@),
            codes@ == spec_parse_fault_codes(views.take(i as int)),
        decreases hex_strings.len() - i,
    {
        proof {
            assert(views.take(i + 1).drop_last() =~= views.take(i as int));
            assert(views.take(i + 1).last() == hex_strings@[i as int]@);
        }
        match parse_fault_code(hex_strings[i].as_str()) {
            Some(c) => {
                codes.push(c);
            },
            None => {},
        }
        i = i + 1;
    }
    assert(views.take(i as int) =~= views);
    codes
}

/// The filter that the `parse` options select.
pub fn build_filter_options(args: &ParseArgs) -> (f: FilterOptions)
    ensures
        f.slave_ids@ == args.slave_ids@,
        f.msg_types@ == args.msg_types@.map_values(|a: MailboxTypeArg| spec_to_mailbox_type(a)),
        f.fault_codes@ == spec_parse_fault_codes(args.fault_codes@.map_values(|s: String| s@)),
        f.commands@ == args.commands@.map_values(|a: CommandTypeArg| spec_to_ethercat_command(a)),
{
    let mut slave_ids: Vec<u16> = Vec::new();
    let mut i: usize = 0;
    while i < args.slave_ids.len()
        invariant
            i <= args.slave_ids@.len(),
            slave_ids@ == args.slave_ids@.take(i as int),
        decreases args.slave_ids.len() - i,
    {
        slave_ids.push(args.slave_ids[i]);
        i = i + 1;
        assert(slave_ids@ =~= args.slave_ids@.take(i as int));
    }
    assert(args.slave_ids@.take(i as int) =~= args.slave_ids@);
    let mut msg_types: Vec<MailboxType> = Vec::new();
    i = 0;
    assert(msg_types@ =~= args.msg_types@.take(0).map_values(
        |a: MailboxTypeArg| spec_to_mailbox_type(a),
    ));
    while i < args.msg_types.len()
        invariant
            i <= args.msg_types@.len(),
            msg_types@ == args.msg_types@.take(i as int).map_values(
                |a: MailboxTypeArg| spec_to_mailbox_type(a),
            ),
        decreases args.msg_types.len() - i,
    {
        msg_types.push(args.msg_types[i].to_mailbox_type());
        i = i + 1;
        assert(msg_types@ =~= args.msg_types@.take(i as int).map_values(
            |a: MailboxTypeArg| spec_to_mailbox_type(a),
        ));
    }
    assert(args.msg_types@.take(i as int) =~= args.msg_types@);
    let fault_codes = parse_fault_codes(args.fault_codes.as_slice());
    let mut commands: Vec<EthercatCommand> = Vec::new();
    i = 0;
    assert(commands@ =~= args.commands@.take(0).map_values(
        |a: CommandTypeArg| spec_to_ethercat_command(a),
    ));
    while i < args.commands.len()
        invariant
            i <= args.commands@.len(),
            commands@ == args.commands@.take(i as int).map_values(
                |a: CommandTypeArg| spec_to_ethercat_command(a),
            ),
        decreases args.commands.len() - i,
    {
        commands.push(args.commands[i].to_ethercat_command());
        i = i + 1;
        assert(commands@ =~= args.commands@.take(i as int).map_values(
            |a: CommandTypeArg| spec_to_ethercat_command(a),
        ));
    }
    assert(args.commands@.take(i as int) =~= args.commands@);
    let mut opts = FilterOptions::new();
    opts.slave_ids = slave_ids;
    opts.msg_types = msg_types;
    opts.fault_codes = fault_codes;
    opts.commands = commands;
    opts
}

} // verus!
