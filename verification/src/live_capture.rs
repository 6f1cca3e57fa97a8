//! Live capture: the filter handed to the capture device, timestamps, and
//! what each captured packet or capture event does to the counters. Opening
//! the device and waiting for packets is left to the caller.

use crate::ethercat_parser::{header_of, spec_ethertype, spec_header_error, RawEthercatFrame};
use crate::io_reader::frame_from_bytes;
use crate::text::{concat, hex_padded, spec_hex_padded};
use crate::ETHERCAT_ETHERTYPE;
use vstd::prelude::*;

verus! {

#[verifier::external_type_specification]
#[verifier::external_body]
pub struct ExSystemTime(std::time::SystemTime);

#[verifier::external_type_specification]
#[verifier::external_body]
pub struct ExSystemTimeError(std::time::SystemTimeError);

/// A network interface that packets can be captured on.
#[derive(Debug, Clone)]
pub struct NetworkInterface {
    pub name: String,
    pub description: Option<String>,
    pub addresses: Vec<String>,
    pub is_up: bool,
    pub is_running: bool,
}

/// How the capture device is opened.
pub struct CaptureOptions {
    pub interface_name: String,
    pub promiscuous: bool,
    pub snaplen: usize,
    pub timeout_ms: i32,
    pub buffer_size: usize,
    pub immediate_mode: bool,
}

impl Default for CaptureOptions {
    /// No interface; promiscuous, 65535-byte snapshots, 10 ms read timeout,
    /// a 16 MiB kernel buffer and immediate delivery.
    fn default() -> (o: Self)
        ensures
            o.interface_name@ == Seq::<char>::empty(),
            o.promiscuous,
            o.snaplen == 65535,
            o.timeout_ms == 10,
            o.buffer_size == 16 * 1024 * 1024,
            o.immediate_mode,
    {
        CaptureOptions {
            interface_name: String::new(),
            promiscuous: true,
            snaplen: 65535,
            timeout_ms: 10,
            buffer_size: 16 * 1024 * 1024,
            immediate_mode: true,
        }
    }
}

/// Counters of a live capture.
#[derive(Debug, Clone)]
pub struct LiveStats {
    pub received: u64,
    pub dropped: u64,
    pub if_dropped: u64,
    pub ethercat_frames: u64,
    pub parse_errors: u64,
    pub filtered_count: u64,
}

impl Default for LiveStats {
    /// All counters at zero.
    fn default() -> (s: Self)
        ensures
            s.received == 0,
            s.dropped == 0,
            s.if_dropped == 0,
            s.ethercat_frames == 0,
            s.parse_errors == 0,
            s.filtered_count == 0,
    {
        LiveStats {
            received: 0,
            dropped: 0,
            if_dropped: 0,
            ethercat_frames: 0,
            parse_errors: 0,
            filtered_count: 0,
        }
    }
}

/// A failure seen during capture, with when it happened.
#[derive(Debug, Clone)]
pub struct CaptureError {
    pub timestamp: u64,
    pub message: String,
}

/// Whether a capture loop goes on after a frame.
pub enum LoopControl {
    Continue,
    Break,
}

/// The capture filter that lets only EtherCAT frames through.
pub open spec fn spec_bpf_filter() -> Seq<char> {
    "ether proto 0x"@ + spec_hex_padded(ETHERCAT_ETHERTYPE as nat, 4)
}

/// The BPF expression that selects frames of the EtherCAT Ethertype
/// (`ether proto 0x88a4`).
pub fn build_bpf_filter() -> (s: String)
    ensures
        s@ == spec_bpf_filter(),
{
    let digits = hex_padded(ETHERCAT_ETHERTYPE as u64, 4);
    concat("ether proto 0x", digits.as_str())
}

/// The header of a captured packet: capture time (seconds and microseconds
/// since the epoch) and the captured and on-the-wire lengths.
#[derive(Debug, Clone, Copy, PartialEq, Eq, Structural)]
pub struct CapturedPacketHeader {
    pub ts_sec: i64,
    pub ts_usec: i64,
    pub caplen: u32,
    pub len: u32,
}

/// Nanoseconds since the epoch of a packet capture time.
pub open spec fn spec_packet_nanos(h: CapturedPacketHeader) -> int {
    h.ts_sec * 1_000_000_000 + h.ts_usec * 1_000
}

/// A capture time at or after the epoch whose nanosecond count fits in 64 bits.
pub open spec fn packet_time_fits(h: CapturedPacketHeader) -> bool {
    0 <= h.ts_sec && 0 <= h.ts_usec && spec_packet_nanos(h) <= u64::MAX
}

/// Whether a capture time lies at or after the epoch with a nanosecond count
/// that fits in 64 bits.
pub fn packet_time_ok(header: &CapturedPacketHeader) -> (r: bool)
    ensures
        r == packet_time_fits(*header),
{
    if header.ts_sec < 0 || header.ts_usec < 0 {
        return false;
    }
    let sec = header.ts_sec as u64;
    let usec = header.ts_usec as u64;
    if sec > 18_446_744_073 || usec > 18_446_744_073_709_551 {
        return false;
    }
    sec * 1_000_000_000 <= u64::MAX - usec * 1_000
}

/// Nanoseconds since the epoch at which a packet was captured.
pub fn packet_header_to_nanos(header: &CapturedPacketHeader) -> (ns: u64)
    requires
        packet_time_fits(*header),
    ensures
        ns == spec_packet_nanos(*header),
{
    let sec = header.ts_sec as u64;
    let usec = header.ts_usec as u64;
    assert(sec * 1_000_000_000 <= u64::MAX);
    assert(usec * 1_000 <= u64::MAX);
    sec * 1_000_000_000 + usec * 1_000
}

/// A system time as its distance from the epoch: which side of it, whole
/// seconds, and the nanoseconds beyond them.
#[derive(Debug, Clone, Copy, PartialEq, Eq, Structural)]
pub struct EpochOffset {
    pub before_epoch: bool,
    pub secs: u64,
    pub subsec_nanos: u32,
}

/// What `SystemTime::duration_since(UNIX_EPOCH)` gives a system time: its
/// distance from the epoch, or, for a time before the epoch, an error that
/// holds that distance. It depends on the time value alone.
pub uninterp spec fn spec_since_epoch(ts: std::time::SystemTime) -> std::result::Result<
    std::time::Duration,
    std::time::SystemTimeError,
>;

/// What `SystemTimeError::duration` gives: how far before the epoch the time
/// of the error lies.
pub uninterp spec fn spec_error_duration(e: std::time::SystemTimeError) -> std::time::Duration;

/// What `Duration::as_secs` gives: the whole seconds of a duration.
pub uninterp spec fn spec_duration_secs(d: std::time::Duration) -> u64;

/// What `Duration::subsec_nanos` gives: the nanoseconds beyond the whole
/// seconds of a duration.
pub uninterp spec fn spec_duration_subsec_nanos(d: std::time::Duration) -> u32;

/// `SystemTime::duration_since(UNIX_EPOCH)`; its result is named
/// `spec_since_epoch`.
#[verifier::external_body]
fn since_epoch(ts: &std::time::SystemTime) -> (r: std::result::Result<
    std::time::Duration,
    std::time::SystemTimeError,
>)
    ensures
        r == spec_since_epoch(*ts),
{
    ts.duration_since(std::time::UNIX_EPOCH)
}

/// `SystemTimeError::duration`; its result is named `spec_error_duration`.
#[verifier::external_body]
fn error_duration(e: &std::time::SystemTimeError) -> (d: std::time::Duration)
    ensures
        d == spec_error_duration(*e),
{
    e.duration()
}

/// `Duration::as_secs`; its result is named `spec_duration_secs`.
#[verifier::external_body]
fn duration_secs(d: &std::time::Duration) -> (s: u64)
    ensures
        s == spec_duration_secs(*d),
{
    d.as_secs()
}

/// `Duration::subsec_nanos`; its result is named
/// `spec_duration_subsec_nanos`, and the documentation bounds it below one
/// second.
#[verifier::external_body]
fn duration_subsec_nanos(d: &std::time::Duration) -> (n: u32)
    ensures
        n == spec_duration_subsec_nanos(*d),
        n < 1_000_000_000,
{
    d.subsec_nanos()
}

/// The offset of a system time from the epoch: on which side of the epoch
/// it lies, and the whole seconds and nanoseconds of its distance.
pub open spec fn spec_epoch_offset(ts: std::time::SystemTime) -> EpochOffset {
    match spec_since_epoch(ts) {
        Ok(d) => EpochOffset {
            before_epoch: false,
            secs: spec_duration_secs(d),
            subsec_nanos: spec_duration_subsec_nanos(d),
        },
        Err(e) => EpochOffset {
            before_epoch: true,
            secs: spec_duration_secs(spec_error_duration(e)),
            subsec_nanos: spec_duration_subsec_nanos(spec_error_duration(e)),
        },
    }
}

/// The distance of a system time from the epoch, and on which side of it the
/// time lies.
fn epoch_offset(ts: &std::time::SystemTime) -> (o: EpochOffset)
    ensures
        o == spec_epoch_offset(*ts),
        o.subsec_nanos < 1_000_000_000,
{
    match since_epoch(ts) {
        Ok(d) => EpochOffset {
            before_epoch: false,
            secs: duration_secs(&d),
            subsec_nanos: duration_subsec_nanos(&d),
        },
        Err(e) => {
            let d = error_duration(&e);
            EpochOffset { before_epoch: true, secs: duration_secs(&d), subsec_nanos: duration_subsec_nanos(&d) }
        },
    }
}

/// Length in nanoseconds of an offset from the epoch.
pub open spec fn spec_offset_length(o: EpochOffset) -> int {
    o.secs * 1_000_000_000 + o.subsec_nanos
}

/// Nanoseconds of an offset from the epoch as a 64-bit count; a time before
/// the epoch gives the two's-complement negation of its distance.
pub open spec fn spec_offset_nanos(o: EpochOffset) -> u64 {
    if o.before_epoch && spec_offset_length(o) != 0 {
        (u64::MAX + 1 - spec_offset_length(o)) as u64
    } else {
        spec_offset_length(o) as u64
    }
}

/// Nanoseconds of an offset from the epoch, whose length fits in 64 bits.
pub fn offset_to_nanos(o: EpochOffset) -> (ns: u64)
    requires
        spec_offset_length(o) <= u64::MAX,
    ensures
        ns == spec_offset_nanos(o),
{
    assert(o.secs * 1_000_000_000 <= u64::MAX);
    let n = o.secs * 1_000_000_000 + o.subsec_nanos as u64;
    if o.before_epoch && n != 0 {
        u64::MAX - n + 1
    } else {
        n
    }
}

/// Nanoseconds of an offset from the epoch; `None` when its length does not
/// fit in 64 bits.
pub fn nanos_since_epoch(o: EpochOffset) -> (r: Option<u64>)
    ensures
        r == spec_nanos_of_offset(o),
{
    if o.secs > 18_446_744_073 {
        return None;
    }
    let whole = o.secs * 1_000_000_000;
    if whole > u64::MAX - o.subsec_nanos as u64 {
        return None;
    }
    Some(offset_to_nanos(o))
}

/// Nanoseconds since the epoch of a system time: `nanos_since_epoch` of its
/// offset from the epoch, `None` when that does not fit in 64 bits.
pub fn system_time_to_nanos(ts: &std::time::SystemTime) -> (r: Option<u64>)
    ensures
        r == spec_nanos_of_offset(spec_epoch_offset(*ts)),
{
    let o = epoch_offset(ts);
    nanos_since_epoch(o)
}

/// The nanosecond count of an offset from the epoch, when its length fits
/// in 64 bits.
pub open spec fn spec_nanos_of_offset(o: EpochOffset) -> Option<u64> {
    if spec_offset_length(o) <= u64::MAX {
        Some(spec_offset_nanos(o))
    } else {
        None
    }
}

/// What happened when the capture device was asked for the next packet.
pub enum CaptureEvent {
    /// A packet was captured.
    Packet(CapturedPacketHeader, Vec<u8>),
    /// The read timeout expired with no packet.
    TimeoutExpired,
    /// The capture has no more packets.
    NoMorePackets,
    /// The capture failed.
    Failed,
}

/// What the caller does after a capture event.
pub enum CaptureAction {
    /// Ask for the next packet.
    Continue,
    /// Hand this EtherCAT frame on.
    Deliver(RawEthercatFrame),
    /// The capture is over.
    End,
    /// Report a capture error.
    Fail,
}

/// The counters can take one more packet.
pub open spec fn stats_can_count(s: LiveStats) -> bool {
    s.received < u64::MAX && s.ethercat_frames < u64::MAX && s.parse_errors < u64::MAX
}

/// A packet is an EtherCAT frame: long enough for an Ethernet header and of
/// the EtherCAT Ethertype.
pub open spec fn is_ethercat_packet(d: Seq<u8>) -> bool {
    d.len() >= 14 && spec_ethertype(d) == ETHERCAT_ETHERTYPE
}

impl LiveStats {
    /// Whether the counters can take one more packet.
    pub fn can_count(&self) -> (r: bool)
        ensures
            r == stats_can_count(*self),
    {
        self.received < u64::MAX && self.ethercat_frames < u64::MAX && self.parse_errors < u64::MAX
    }

    /// Takes in a capture event: counts received packets, EtherCAT frames and
    /// parse failures, and says what to do next. Packets shorter than an
    /// Ethernet header and EtherCAT frames whose headers do not decode count
    /// as parse errors and are passed over, as are packets of other
    /// Ethertypes; a capture failure counts as a parse error too.
    pub fn on_capture_event(&mut self, event: CaptureEvent) -> (a: CaptureAction)
        requires
            event is Packet || event is Failed ==> stats_can_count(*old(self)),
            event matches CaptureEvent::Packet(h, _) ==> packet_time_fits(h),
        ensures
            final(self).dropped == old(self).dropped,
            final(self).if_dropped == old(self).if_dropped,
            final(self).filtered_count == old(self).filtered_count,
            match event {
                CaptureEvent::Packet(h, d) => {
                    &&& final(self).received == old(self).received + 1
                    &&& final(self).ethercat_frames == old(self).ethercat_frames + (if d@.len()
                        >= 14 && spec_ethertype(d@) == ETHERCAT_ETHERTYPE {
                        1int
                    } else {
                        0int
                    })
                    &&& if d@.len() < 14 {
                        &&& final(self).parse_errors == old(self).parse_errors + 1
                        &&& a is Continue
                    } else if spec_ethertype(d@) != ETHERCAT_ETHERTYPE {
                        &&& final(self).parse_errors == old(self).parse_errors
                        &&& a is Continue
                    } else if spec_header_error(d@) is Some {
                        &&& final(self).parse_errors == old(self).parse_errors + 1
                        &&& a is Continue
                    } else {
                        &&& final(self).parse_errors == old(self).parse_errors
                        &&& a matches CaptureAction::Deliver(f)
                        &&& f.timestamp_ns == spec_packet_nanos(h)
                        &&& f.frame_length == h.caplen
                        &&& f.data@ == d@
                        &&& header_of(f.header, d@)
                    }
                },
                CaptureEvent::TimeoutExpired => {
                    &&& *final(self) == *old(self)
                    &&& a is Continue
                },
                CaptureEvent::NoMorePackets => {
                    &&& *final(self) == *old(self)
                    &&& a is End
                },
                CaptureEvent::Failed => {
                    &&& final(self).received == old(self).received
                    &&& final(self).ethercat_frames == old(self).ethercat_frames
                    &&& final(self).parse_errors == old(self).parse_errors + 1
                    &&& a is Fail
                },
            },
    {
        match event {
            CaptureEvent::Packet(header, data) => {
                self.received = self.received + 1;
                let timestamp_ns = packet_header_to_nanos(&header);
                if data.len() < 14 {
                    self.parse_errors = self.parse_errors + 1;
                    return CaptureAction::Continue;
                }
                let ethertype: u16 = data[13] as u16 + 256 * (data[12] as u16);
                if ethertype != ETHERCAT_ETHERTYPE {
                    return CaptureAction::Continue;
                }
                self.ethercat_frames = self.ethercat_frames + 1;
                match frame_from_bytes(timestamp_ns, header.caplen as usize, data) {
                    Ok(f) => CaptureAction::Deliver(f),
                    Err(_) => {
                        self.parse_errors = self.parse_errors + 1;
                        CaptureAction::Continue
                    },
                }
            },
            CaptureEvent::TimeoutExpired => CaptureAction::Continue,
            CaptureEvent::NoMorePackets => CaptureAction::End,
            CaptureEvent::Failed => {
                self.parse_errors = self.parse_errors + 1;
                CaptureAction::Fail
            },
        }
    }

    /// Takes the counters that the capture device reports.
    pub fn apply_device_stats(&mut self, received: u32, dropped: u32, if_dropped: u32)
        ensures
            final(self).received == received,
            final(self).dropped == dropped,
            final(self).if_dropped == if_dropped,
            final(self).ethercat_frames == old(self).ethercat_frames,
            final(self).parse_errors == old(self).parse_errors,
            final(self).filtered_count == old(self).filtered_count,
    {
        self.received = received as u64;
        self.dropped = dropped as u64;
        self.if_dropped = if_dropped as u64;
    }
}

} // verus!
