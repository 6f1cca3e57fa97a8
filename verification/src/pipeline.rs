//! Processing of captured frames one by one: decoding, PDO conversion,
//! statistics, the errors-only selection and the filter.

use crate::ethercat_parser::{
    count_or_zero, fault_tally, mailbox_tally, parse_ethercat_frame, pdo_tally, slave_tally,
    spec_datagram, spec_filter_frame, spec_frame_view, spec_parse_datagram, spec_parse_datagrams,
    spec_payload_end, stats_absorbed, stats_can_absorb, update_stats, FilterOptions, ParseError,
    RawEthercatFrame,
};
use crate::cli::OutputFormat;
use crate::io_reader::InputSource;
use crate::pdo_converter::{enhanceable, spec_enhance, PdoConverter};
use crate::text::str_equals;
use crate::{
    datagrams_view, opt_string_view, EthercatFrame, EthercatFrameView, MailboxType, ParseStats, ParsedDatagramView,
    TemplateSlave,
};
use vstd::prelude::*;

verus! {

broadcast use vstd::std_specs::hash::group_hash_axioms;

/// Every datagram that decoding gives holds at most 2047 data bytes, and its
/// process data, if any, have PDO index 0x1600.
pub proof fn lemma_decoded_enhanceable(d: Seq<u8>, offset: nat, end: nat)
    ensures
        spec_parse_datagrams(d, offset, end) matches Ok(dgs) ==> forall|i: int|
            0 <= i < dgs.len() ==> enhanceable(#[trigger] dgs[i]) && dgs[i].data.len() <= 2047,
    decreases end - offset,
{
    if offset + 10 < end && end <= d.len() {
        let sl = d.subrange(offset as int, end as int);
        crate::ethercat_parser::lemma_datagram_consumed(sl);
        reveal(spec_datagram);
        match spec_parse_datagram(sl) {
            Ok((dg, n)) => {
                lemma_decoded_enhanceable(d, offset + n, end);
                match spec_parse_datagrams(d, offset + n, end) {
                    Ok(rest) => {
                        let all = seq![dg] + rest;
                        assert forall|i: int| 0 <= i < all.len() implies enhanceable(#[trigger] all[i])
                            && all[i].data.len() <= 2047 by {
                            if i > 0 {
                                assert(all[i] == rest[i - 1]);
                            }
                        }
                    },
                    Err(_) => {},
                }
            },
            Err(_) => {},
        }
    }
}

/// The datagrams after PDO conversion.
pub open spec fn spec_enhance_all(slaves: Seq<TemplateSlave>, dgs: Seq<ParsedDatagramView>) -> Seq<ParsedDatagramView> {
    dgs.map_values(|d: ParsedDatagramView| spec_enhance(slaves, d))
}

/// A datagram reports a fault, or carries an SDO transfer with an error code.
pub open spec fn datagram_has_error(dg: ParsedDatagramView) -> bool {
    dg.is_fault || (dg.mailbox matches Some(m) && (m.sdo matches Some(s) && s.error_code is Some))
}

/// Some datagram of the frame has an error.
pub open spec fn frame_has_error(frame: EthercatFrameView) -> bool {
    exists|i: int| 0 <= i < frame.datagrams.len() && #[trigger] datagram_has_error(frame.datagrams[i])
}

/// Why a frame was not processed.
#[derive(Debug, Clone, Copy, PartialEq, Eq, Structural)]
pub enum ProcessError {
    /// The frame could not be decoded.
    Malformed(ParseError),
    /// Counting the frame would overflow a statistics counter.
    CounterOverflow,
}

/// The frame that processing selects for output: what the filter keeps,
/// and, when only errors are wanted, only if some datagram it keeps has an
/// error.
pub open spec fn spec_select(filter: FilterOptions, errors_only: bool, frame: EthercatFrameView) -> Option<EthercatFrameView> {
    match spec_filter_frame(filter, frame) {
        Some(g) => if errors_only && !frame_has_error(g) {
            None
        } else {
            Some(g)
        },
        None => None,
    }
}

fn datagram_error(dg: &crate::ParsedDatagram) -> (r: bool)
    ensures
        r == datagram_has_error(dg@),
{
    if dg.is_fault {
        return true;
    }
    match &dg.mailbox {
        Some(m) => match &m.sdo {
            Some(s) => s.error_code.is_some(),
            None => false,
        },
        None => false,
    }
}

/// Whether some datagram of the frame has an error.
pub fn has_error(frame: &EthercatFrame) -> (r: bool)
    ensures
        r == frame_has_error(frame@),
{
    let mut i: usize = 0;
    while i < frame.datagrams.len()
        invariant
            i <= frame.datagrams@.len(),
            forall|j: int| 0 <= j < i ==> !#[trigger] datagram_has_error(frame@.datagrams[j]),
        decreases frame.datagrams.len() - i,
    {
        assert(frame@.datagrams[i as int] == frame.datagrams@[i as int]@);
        if datagram_error(&frame.datagrams[i]) {
            return true;
        }
        i = i + 1;
    }
    false
}

fn count_slave(frame: &EthercatFrame, s: u16) -> (t: u64)
    ensures
        t == slave_tally(frame@.datagrams, s),
{
    let ghost dgs = frame@.datagrams;
    let mut t: u64 = 0;
    let mut j: usize = 0;
    while j < frame.datagrams.len()
        invariant
            j <= frame.datagrams@.len(),
            dgs == frame@.datagrams,
            t == slave_tally(dgs.take(j as int), s),
            t <= j,
        decreases frame.datagrams.len() - j,
    {
        proof {
            assert(dgs.take(j + 1).drop_last() =~= dgs.take(j as int));
            assert(dgs[j as int] == frame.datagrams@[j as int]@);
        }
        if frame.datagrams[j].header.slave_address == s {
            t = t + 1;
        }
        j = j + 1;
    }
    assert(dgs.take(j as int) =~= dgs);
    t
}

proof fn lemma_tally_witness(dgs: Seq<ParsedDatagramView>, s: u16)
    ensures
        slave_tally(dgs, s) > 0 ==> exists|i: int|
            0 <= i < dgs.len() && #[trigger] dgs[i].header.slave_address == s,
        slave_tally(dgs, s) <= dgs.len(),
    decreases dgs.len(),
{
    if dgs.len() > 0 {
        lemma_tally_witness(dgs.drop_last(), s);
        if slave_tally(dgs, s) > 0 && dgs.last().header.slave_address != s {
            let i = choose|i: int|
                0 <= i < dgs.drop_last().len() && #[trigger] dgs.drop_last()[i].header.slave_address == s;
            assert(dgs[i] == dgs.drop_last()[i]);
        }
    }
}

proof fn lemma_tallies_bounded(dgs: Seq<ParsedDatagramView>)
    ensures
        mailbox_tally(dgs, MailboxType::CoE) <= dgs.len(),
        mailbox_tally(dgs, MailboxType::FoE) <= dgs.len(),
        mailbox_tally(dgs, MailboxType::EoE) <= dgs.len(),
        pdo_tally(dgs) <= dgs.len(),
        fault_tally(dgs) <= dgs.len(),
    decreases dgs.len(),
{
    if dgs.len() > 0 {
        lemma_tallies_bounded(dgs.drop_last());
    }
}

/// Whether the datagrams of the frame can be counted into the statistics
/// without overflowing a counter.
pub fn stats_fit(stats: &ParseStats, frame: &EthercatFrame) -> (r: bool)
    ensures
        r == stats_can_absorb(*stats, frame@),
{
    let ghost dgs = frame@.datagrams;
    let n = frame.datagrams.len() as u64;
    let mut coe: u64 = 0;
    let mut foe: u64 = 0;
    let mut eoe: u64 = 0;
    let mut pdo: u64 = 0;
    let mut fault: u64 = 0;
    let mut slaves_ok = true;
    let mut i: usize = 0;
    while i < frame.datagrams.len()
        invariant
            i <= frame.datagrams@.len(),
            dgs == frame@.datagrams,
            n == dgs.len(),
            coe == mailbox_tally(dgs.take(i as int), MailboxType::CoE),
            foe == mailbox_tally(dgs.take(i as int), MailboxType::FoE),
            eoe == mailbox_tally(dgs.take(i as int), MailboxType::EoE),
            pdo == pdo_tally(dgs.take(i as int)),
            fault == fault_tally(dgs.take(i as int)),
            coe <= i && foe <= i && eoe <= i && pdo <= i && fault <= i,
            slaves_ok == forall|j: int|
                0 <= j < i ==> count_or_zero(stats.slave_counts@, #[trigger] dgs[j].header.slave_address)
                    + slave_tally(dgs, dgs[j].header.slave_address) <= u64::MAX,
        decreases frame.datagrams.len() - i,
    {
        let dg = &frame.datagrams[i];
        proof {
            assert(dgs.take(i + 1).drop_last() =~= dgs.take(i as int));
            assert(dgs[i as int] == dg@);
        }
        match &dg.mailbox {
            Some(m) => match m.msg_type {
                MailboxType::CoE => {
                    coe = coe + 1;
                },
                MailboxType::FoE => {
                    foe = foe + 1;
                },
                MailboxType::EoE => {
                    eoe = eoe + 1;
                },
                _ => {},
            },
            None => {},
        }
        if dg.pdo.is_some() {
            pdo = pdo + 1;
        }
        if dg.is_fault {
            fault = fault + 1;
        }
        let addr = dg.header.slave_address;
        let current: u64 = match stats.slave_counts.get(&addr) {
            Some(c) => *c,
            None => 0,
        };
        let t = count_slave(frame, addr);
        if current > u64::MAX - t {
            slaves_ok = false;
        }
        i = i + 1;
    }
    proof {
        assert(dgs.take(i as int) =~= dgs);
        if slaves_ok {
            assert forall|s: u16| #[trigger]
                count_or_zero(stats.slave_counts@, s) + slave_tally(dgs, s) <= u64::MAX by {
                lemma_tally_witness(dgs, s);
                if slave_tally(dgs, s) > 0 {
                    let j = choose|j: int| 0 <= j < dgs.len() && #[trigger] dgs[j].header.slave_address == s;
                    assert(count_or_zero(stats.slave_counts@, dgs[j].header.slave_address) + slave_tally(
                        dgs,
                        dgs[j].header.slave_address,
                    ) <= u64::MAX);
                }
            }
        }
    }
    stats.total_frames < u64::MAX && stats.total_datagrams <= u64::MAX - n && stats.coe_messages
        <= u64::MAX - coe && stats.foe_messages <= u64::MAX - foe && stats.eoe_messages <= u64::MAX
        - eoe && stats.pdo_updates <= u64::MAX - pdo && stats.fault_count <= u64::MAX - fault
        && slaves_ok
}

/// Counts the datagrams of a frame into the statistics when no counter
/// overflows; otherwise leaves them as they are. Says whether it counted.
pub fn update_stats_checked(stats: &mut ParseStats, frame: &EthercatFrame) -> (counted: bool)
    ensures
        counted == stats_can_absorb(*old(stats), frame@),
        counted ==> stats_absorbed(*old(stats), *final(stats), frame@),
        !counted ==> *final(stats) == *old(stats),
{
    if stats_fit(stats, frame) {
        update_stats(stats, frame);
        true
    } else {
        false
    }
}

/// Processes one captured frame: decodes it, converts the process data of
/// each datagram, counts it into the statistics, and selects it for output
/// (through the filter, then, when `errors_only`, only if a kept datagram
/// has an error).
pub fn process_frame(
    converter: &PdoConverter,
    stats: &mut ParseStats,
    filter: &FilterOptions,
    errors_only: bool,
    raw: &RawEthercatFrame,
) -> (r: Result<Option<EthercatFrame>, ProcessError>)
    ensures
        match spec_parse_datagrams(raw.data@, 18, spec_payload_end(*raw)) {
            Err(e) => r == Err::<Option<EthercatFrame>, ProcessError>(ProcessError::Malformed(e))
                && *final(stats) == *old(stats),
            Ok(dgs) => {
                let frame = spec_frame_view(*raw, spec_enhance_all(converter.slaves(), dgs));
                if stats_can_absorb(*old(stats), frame) {
                    &&& stats_absorbed(*old(stats), *final(stats), frame)
                    &&& r is Ok
                    &&& match spec_select(*filter, errors_only, frame) {
                        Some(v) => r->Ok_0 is Some && r->Ok_0->Some_0@ == v,
                        None => r->Ok_0 is None,
                    }
                } else {
                    r == Err::<Option<EthercatFrame>, ProcessError>(ProcessError::CounterOverflow)
                        && *final(stats) == *old(stats)
                }
            },
        },
{
    let mut parsed = match parse_ethercat_frame(raw) {
        Ok(f) => f,
        Err(e) => {
            return Err(ProcessError::Malformed(e));
        },
    };
    let ghost dgs = datagrams_view(parsed.datagrams@);
    let ghost slaves = converter.slaves();
    proof {
        lemma_decoded_enhanceable(raw.data@, 18, spec_payload_end(*raw));
    }
    let n = parsed.datagrams.len();
    let mut i: usize = 0;
    while i < n
        invariant
            n == parsed.datagrams@.len(),
            i <= n,
            dgs.len() == n,
            forall|j: int| 0 <= j < dgs.len() ==> enhanceable(#[trigger] dgs[j]),
            forall|j: int| 0 <= j < i ==> #[trigger] parsed.datagrams@[j]@ == spec_enhance(slaves, dgs[j]),
            forall|j: int| i <= j < n ==> #[trigger] parsed.datagrams@[j]@ == dgs[j],
            parsed@.timestamp_ns == raw.timestamp_ns,
            parsed@.frame_length == raw.frame_length,
            parsed@.ethernet_dest == raw.header.ethernet_dest@,
            parsed@.ethernet_src == raw.header.ethernet_src@,
            parsed@.ethertype == raw.header.ethertype,
            slaves == converter.slaves(),
        decreases n - i,
    {
        assert(parsed.datagrams@[i as int]@ == dgs[i as int]);
        converter.enhance_datagram(&mut parsed.datagrams[i]);
        i = i + 1;
    }
    proof {
        assert(parsed@.datagrams =~= spec_enhance_all(slaves, dgs));
        assert(parsed@ =~= spec_frame_view(*raw, spec_enhance_all(slaves, dgs)));
    }
    if !update_stats_checked(stats, &parsed) {
        return Err(ProcessError::CounterOverflow);
    }
    match filter.filter_frame(parsed) {
        Some(g) => {
            if errors_only && !has_error(&g) {
                Ok(None)
            } else {
                Ok(Some(g))
            }
        },
        None => Ok(None),
    }
}

/// Where the `parse` command reads from: standard input for `-` or no
/// path, else the file.
pub open spec fn spec_input_source(input: Option<Seq<char>>) -> Option<Seq<char>> {
    match input {
        Some(p) => if p == seq!['-'] {
            None
        } else {
            Some(p)
        },
        None => None,
    }
}

/// Where the `parse` command reads from, given its input path.
pub fn input_source(input: Option<String>) -> (s: InputSource)
    ensures
        match spec_input_source(opt_string_view(input)) {
            Some(p) => s matches InputSource::File(q) && q@ == p,
            None => s is Stdin,
        },
{
    match input {
        Some(p) => {
            let dash = str_equals(p.as_str(), "-");
            proof {
                reveal_strlit("-");
                assert("-"@ =~= seq!['-']);
            }
            if dash {
                InputSource::Stdin
            } else {
                InputSource::File(p)
            }
        },
        None => InputSource::Stdin,
    }
}

/// Parsing stops once `parsed` frames were parsed and a positive limit is
/// reached (no limit, or a limit of 0, never stops it).
pub fn limit_reached(limit: Option<u64>, parsed: u64) -> (r: bool)
    ensures
        r == match limit {
            Some(l) => l > 0 && parsed >= l,
            None => false,
        },
{
    match limit {
        Some(l) => l > 0 && parsed >= l,
        None => false,
    }
}

/// The summary is printed for the summary and pretty formats, and whenever
/// the output is verbose.
pub fn prints_summary(format: OutputFormat, verbose: u8) -> (r: bool)
    ensures
        r == (format is Summary || format is Pretty || verbose >= 1),
{
    match format {
        OutputFormat::Summary | OutputFormat::Pretty => true,
        _ => verbose >= 1,
    }
}

/// What the `parse` loop does once a frame was processed.
pub enum LoopStep {
    /// The frame could not be decoded: it is skipped, with a warning when
    /// the output is verbose enough.
    Skip { error: ParseError, warn: bool },
    /// The frame was counted: the number of frames parsed so far, the frame
    /// to output, if one was selected, and whether the limit is reached.
    Counted { parsed: u64, output: Option<EthercatFrame>, stop: bool },
    /// Counting the frame would overflow a statistics counter.
    Overflow,
}

/// The decision of the `parse` loop after processing a frame: a malformed
/// frame is skipped (with a warning from verbosity 2 on) and not counted;
/// an accepted frame is counted, its selection is output, and parsing stops
/// once the limit is reached.
pub fn next_step(
    processed: Result<Option<EthercatFrame>, ProcessError>,
    parsed: u64,
    limit: Option<u64>,
    verbose: u8,
) -> (s: LoopStep)
    requires
        processed is Ok ==> parsed < u64::MAX,
    ensures
        match processed {
            Err(ProcessError::Malformed(e)) => s == LoopStep::Skip { error: e, warn: verbose >= 2 },
            Err(ProcessError::CounterOverflow) => s is Overflow,
            Ok(o) => s == LoopStep::Counted {
                parsed: (parsed + 1) as u64,
                output: o,
                stop: match limit {
                    Some(l) => l > 0 && parsed + 1 >= l,
                    None => false,
                },
            },
        },
{
    match processed {
        Err(ProcessError::Malformed(e)) => LoopStep::Skip { error: e, warn: verbose >= 2 },
        Err(ProcessError::CounterOverflow) => LoopStep::Overflow,
        Ok(o) => {
            let n = parsed + 1;
            LoopStep::Counted { parsed: n, output: o, stop: limit_reached(limit, n) }
        },
    }
}

} // verus!
