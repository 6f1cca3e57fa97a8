//! Decoding of EtherCAT frames: the Ethernet and EtherCAT headers, the chain
//! of datagrams, mailbox sub-frames, SDO transfers and AL fault codes; the
//! statistics over decoded frames and the frame filter.

use crate::text::{concat, hex_padded, owned, spec_decimal, spec_hex_padded, u64_to_decimal};
use crate::{
    datagrams_view, opt_sdo_view, spec_command_from_u8, spec_mailbox_type_from_u8, DatagramHeader,
    EthercatCommand, EthercatFrame, EthercatFrameView, MailboxMessage, MailboxMessageView, MailboxType,
    ParseStats, ParsedDatagram, ParsedDatagramView, PdoData, PdoDataView, SdoAccess, SdoAccessView,
    AL_ERROR_CODE_REG, COE_SDO_REQUEST, ETHERCAT_ETHERTYPE,
};
use vstd::prelude::*;
use vstd::slice::{slice_subrange, slice_to_vec};

verus! {

broadcast use vstd::std_specs::hash::group_hash_axioms;

/// Why a frame, a datagram or a sub-frame could not be decoded.
#[derive(Debug, Clone, Copy, PartialEq, Eq, Structural)]
pub enum ParseError {
    /// The packet is shorter than an Ethernet header (the length is given).
    EthernetTooShort(usize),
    /// The Ethertype is not the EtherCAT one (the Ethertype found is given).
    NotEthercat(u16),
    /// The packet ends inside the EtherCAT header.
    EthercatHeaderTooShort,
    /// A datagram is shorter than its header (the length is given).
    DatagramTooShort(usize),
    /// A datagram's data and working counter run past the end.
    DatagramTruncated { need: usize, have: usize },
    /// A mailbox is shorter than its header.
    MailboxTooShort,
    /// A mailbox header announces an empty mailbox.
    InvalidMailboxLength,
    /// An SDO is shorter than its command bytes.
    SdoTooShort,
}

/// The human-readable message of an error.
pub open spec fn spec_error_message(e: ParseError) -> Seq<char> {
    match e {
        ParseError::EthernetTooShort(n) => "Packet too short for Ethernet header: "@ + spec_decimal(
            n as nat,
        ) + " bytes"@,
        ParseError::NotEthercat(t) => "Not an EtherCAT frame. Ethertype: 0x"@ + spec_hex_padded(
            t as nat,
            4,
        ) + ", expected: 0x"@ + spec_hex_padded(ETHERCAT_ETHERTYPE as nat, 4),
        ParseError::EthercatHeaderTooShort => "Packet too short for EtherCAT header"@,
        ParseError::DatagramTooShort(n) => "Datagram too short: "@ + spec_decimal(n as nat)
            + " bytes"@,
        ParseError::DatagramTruncated { need, have } => "Datagram truncated: need "@
            + spec_decimal(need as nat) + " bytes, have "@ + spec_decimal(have as nat),
        ParseError::MailboxTooShort => "Mailbox data too short"@,
        ParseError::InvalidMailboxLength => "Invalid mailbox length"@,
        ParseError::SdoTooShort => "SDO data too short"@,
    }
}

impl ParseError {
    /// The human-readable message of the error.
    pub fn message(&self) -> (s: String)
        ensures
            s@ == spec_error_message(*self),
    {
        match self {
            ParseError::EthernetTooShort(n) => {
                let a = concat("Packet too short for Ethernet header: ", u64_to_decimal(*n as u64).as_str());
                concat(a.as_str(), " bytes")
            },
            ParseError::NotEthercat(t) => {
                let a = concat("Not an EtherCAT frame. Ethertype: 0x", hex_padded(*t as u64, 4).as_str());
                let b = concat(a.as_str(), ", expected: 0x");
                concat(b.as_str(), hex_padded(ETHERCAT_ETHERTYPE as u64, 4).as_str())
            },
            ParseError::EthercatHeaderTooShort => owned("Packet too short for EtherCAT header"),
            ParseError::DatagramTooShort(n) => {
                let a = concat("Datagram too short: ", u64_to_decimal(*n as u64).as_str());
                concat(a.as_str(), " bytes")
            },
            ParseError::DatagramTruncated { need, have } => {
                let a = concat("Datagram truncated: need ", u64_to_decimal(*need as u64).as_str());
                let b = concat(a.as_str(), " bytes, have ");
                concat(b.as_str(), u64_to_decimal(*have as u64).as_str())
            },
            ParseError::MailboxTooShort => owned("Mailbox data too short"),
            ParseError::InvalidMailboxLength => owned("Invalid mailbox length"),
            ParseError::SdoTooShort => owned("SDO data too short"),
        }
    }
}

/// The EtherCAT header that follows the Ethernet header.
#[derive(Debug, Clone, Copy, PartialEq, Eq, Structural)]
pub struct EthercatHeader {
    pub length: u16,
    pub reserved: u8,
    pub num_datagrams: u8,
}

/// The Ethernet and EtherCAT headers of a frame.
#[derive(Debug, Clone, Copy)]
pub struct FrameHeader {
    pub ethernet_dest: [u8; 6],
    pub ethernet_src: [u8; 6],
    pub ethertype: u16,
    pub ec_header: EthercatHeader,
}

/// A captured frame: its bytes, when it was captured, and its headers.
#[derive(Debug, Clone)]
pub struct RawEthercatFrame {
    pub timestamp_ns: u64,
    pub frame_length: usize,
    pub data: Vec<u8>,
    pub header: FrameHeader,
}

/// Little-endian 16-bit value of two bytes.
pub open spec fn le16(lo: u8, hi: u8) -> u16 {
    (lo + 256 * hi) as u16
}

/// Big-endian 16-bit value of two bytes.
pub open spec fn be16(hi: u8, lo: u8) -> u16 {
    (lo + 256 * hi) as u16
}

/// Little-endian 32-bit value of four bytes.
pub open spec fn le32(b0: u8, b1: u8, b2: u8, b3: u8) -> u32 {
    (b0 + 256 * b1 + 65536 * b2 + 16777216 * b3) as u32
}

/// Little-endian 64-bit value of eight bytes.
pub open spec fn le64(b: Seq<u8>) -> u64 {
    (le32(b[0], b[1], b[2], b[3]) + 4294967296 * le32(b[4], b[5], b[6], b[7])) as u64
}

/// The Ethertype of a packet of at least 14 bytes.
pub open spec fn spec_ethertype(d: Seq<u8>) -> u16 {
    be16(d[12], d[13])
}

/// `h` holds the headers that bytes `d` (at least 18 of them) start with.
pub open spec fn header_of(h: FrameHeader, d: Seq<u8>) -> bool {
    &&& h.ethernet_dest@ == d.subrange(0, 6)
    &&& h.ethernet_src@ == d.subrange(6, 12)
    &&& h.ethertype == spec_ethertype(d)
    &&& h.ec_header.length == le16(d[14], d[15] % 8)
    &&& h.ec_header.reserved == d[16] / 16
    &&& h.ec_header.num_datagrams == d[17] % 128
}

/// The error with which the headers of `d` are refused, if they are.
pub open spec fn spec_header_error(d: Seq<u8>) -> Option<ParseError> {
    if d.len() < 14 {
        Some(ParseError::EthernetTooShort(d.len() as usize))
    } else if spec_ethertype(d) != ETHERCAT_ETHERTYPE {
        Some(ParseError::NotEthercat(spec_ethertype(d)))
    } else if d.len() < 18 {
        Some(ParseError::EthercatHeaderTooShort)
    } else {
        None
    }
}

impl FrameHeader {
    /// Decodes the Ethernet and EtherCAT headers at the start of a packet.
    pub fn parse(data: &[u8]) -> (r: Result<Self, ParseError>)
        ensures
            match spec_header_error(data@) {
                Some(e) => r == Err::<Self, ParseError>(e),
                None => r is Ok && header_of(r->Ok_0, data@),
            },
    {
        if data.len() < 14 {
            return Err(ParseError::EthernetTooShort(data.len()));
        }
        let dest: [u8; 6] = [data[0], data[1], data[2], data[3], data[4], data[5]];
        let src: [u8; 6] = [data[6], data[7], data[8], data[9], data[10], data[11]];
        let ethertype: u16 = data[13] as u16 + 256 * (data[12] as u16);
        if ethertype != ETHERCAT_ETHERTYPE {
            return Err(ParseError::NotEthercat(ethertype));
        }
        if data.len() < 18 {
            return Err(ParseError::EthercatHeaderTooShort);
        }
        let length: u16 = data[14] as u16 + 256 * ((data[15] % 8) as u16);
        let reserved: u8 = data[16] / 16;
        let num_datagrams: u8 = data[17] % 128;
        let h = FrameHeader {
            ethernet_dest: dest,
            ethernet_src: src,
            ethertype,
            ec_header: EthercatHeader { length, reserved, num_datagrams },
        };
        assert(h.ethernet_dest@ =~= data@.subrange(0, 6));
        assert(h.ethernet_src@ =~= data@.subrange(6, 12));
        Ok(h)
    }
}

/// Description of an application-layer error code.
pub open spec fn spec_al_error_text(code: u32) -> Seq<char> {
    match code {
        0x0000 => "No error"@,
        0x0001 => "Unspecified error"@,
        0x0002 => "No memory"@,
        0x0011 => "Invalid requested state change"@,
        0x0012 => "Unknown requested state"@,
        0x0013 => "Bootstrap not supported"@,
        0x0014 => "No valid firmware"@,
        0x0015 => "Invalid mailbox configuration"@,
        0x0016 => "Invalid mailbox configuration (sync channels)"@,
        0x0017 => "Invalid sync manager configuration"@,
        0x0018 => "No valid inputs available"@,
        0x0019 => "No valid outputs available"@,
        0x001A => "Synchronization error"@,
        0x001B => "Sync manager watchdog"@,
        0x001C => "Invalid Sync Manager Types"@,
        0x001D => "Invalid output configuration"@,
        0x001E => "Invalid input configuration"@,
        0x001F => "Invalid watchdog configuration"@,
        0x0020 => "Slave needs cold start"@,
        0x0021 => "Slave needs INIT"@,
        0x0022 => "Slave needs PREOP"@,
        0x0023 => "Cold start prevented"@,
        0x0024 => "INIT command prevented"@,
        0x0025 => "PREOP command prevented"@,
        0x0026 => "SAFEOP command prevented"@,
        0x0027 => "Invalid input mapping"@,
        0x0028 => "Invalid output mapping"@,
        0x0029 => "Inconsistent settings"@,
        0x002A => "FreeRun not supported"@,
        0x002B => "SyncMode not supported"@,
        0x002C => "FreeRun needs Buffer"@,
        0x0030 => "Invalid DC SYNC configuration"@,
        0x0031 => "Invalid DC latch configuration"@,
        0x0032 => "PLL error"@,
        0x0033 => "DC sync IO error"@,
        0x0034 => "DC sync timeout"@,
        0x0035 => "DC invalid sync cycle time"@,
        0x0036 => "DC sync 0 cycle time"@,
        0x0037 => "DC sync 1 cycle time"@,
        0x0041 => "MBX_AOE"@,
        0x0042 => "MBX_EOE"@,
        0x0043 => "MBX_CoE"@,
        0x0044 => "MBX_FOE"@,
        0x0045 => "MBX_SoE"@,
        0x0046 => "MBX_VoE"@,
        0x0047 => "MBX_Doe"@,
        0x0048 => "MBX_BRW"@,
        0x0049 => "MBX_Generic"@,
        0x0050 => "Lost samples"@,
        0x0051 => "Invalid DC SYNC output data"@,
        0x0060 => "Access Layer"@,
        0x0070 => "SII / EEPROM"@,
        0x0080 => "Application Controller available"@,
        0x00F0 => "Vendor specific error ID"@,
        0x0100 => "PCI vendor ID error"@,
        0x0200 => "Invalid firmware"@,
        0xFFFF => "General error"@,
        other => "Unknown AL error code: 0x"@ + spec_hex_padded(other as nat, 8),
    }
}

/// Describes an application-layer error code.
pub fn describe_al_error(code: u32) -> (s: String)
    ensures
        s@ == spec_al_error_text(code),
{
    match code {
        0x0000 => owned("No error"),
        0x0001 => owned("Unspecified error"),
        0x0002 => owned("No memory"),
        0x0011 => owned("Invalid requested state change"),
        0x0012 => owned("Unknown requested state"),
        0x0013 => owned("Bootstrap not supported"),
        0x0014 => owned("No valid firmware"),
        0x0015 => owned("Invalid mailbox configuration"),
        0x0016 => owned("Invalid mailbox configuration (sync channels)"),
        0x0017 => owned("Invalid sync manager configuration"),
        0x0018 => owned("No valid inputs available"),
        0x0019 => owned("No valid outputs available"),
        0x001A => owned("Synchronization error"),
        0x001B => owned("Sync manager watchdog"),
        0x001C => owned("Invalid Sync Manager Types"),
        0x001D => owned("Invalid output configuration"),
        0x001E => owned("Invalid input configuration"),
        0x001F => owned("Invalid watchdog configuration"),
        0x0020 => owned("Slave needs cold start"),
        0x0021 => owned("Slave needs INIT"),
        0x0022 => owned("Slave needs PREOP"),
        0x0023 => owned("Cold start prevented"),
        0x0024 => owned("INIT command prevented"),
        0x0025 => owned("PREOP command prevented"),
        0x0026 => owned("SAFEOP command prevented"),
        0x0027 => owned("Invalid input mapping"),
        0x0028 => owned("Invalid output mapping"),
        0x0029 => owned("Inconsistent settings"),
        0x002A => owned("FreeRun not supported"),
        0x002B => owned("SyncMode not supported"),
        0x002C => owned("FreeRun needs Buffer"),
        0x0030 => owned("Invalid DC SYNC configuration"),
        0x0031 => owned("Invalid DC latch configuration"),
        0x0032 => owned("PLL error"),
        0x0033 => owned("DC sync IO error"),
        0x0034 => owned("DC sync timeout"),
        0x0035 => owned("DC invalid sync cycle time"),
        0x0036 => owned("DC sync 0 cycle time"),
        0x0037 => owned("DC sync 1 cycle time"),
        0x0041 => owned("MBX_AOE"),
        0x0042 => owned("MBX_EOE"),
        0x0043 => owned("MBX_CoE"),
        0x0044 => owned("MBX_FOE"),
        0x0045 => owned("MBX_SoE"),
        0x0046 => owned("MBX_VoE"),
        0x0047 => owned("MBX_Doe"),
        0x0048 => owned("MBX_BRW"),
        0x0049 => owned("MBX_Generic"),
        0x0050 => owned("Lost samples"),
        0x0051 => owned("Invalid DC SYNC output data"),
        0x0060 => owned("Access Layer"),
        0x0070 => owned("SII / EEPROM"),
        0x0080 => owned("Application Controller available"),
        0x00F0 => owned("Vendor specific error ID"),
        0x0100 => owned("PCI vendor ID error"),
        0x0200 => owned("Invalid firmware"),
        0xFFFF => owned("General error"),
        other => concat("Unknown AL error code: 0x", hex_padded(other as u64, 8).as_str()),
    }
}


/// The SDO transfer that a CoE payload holds.
pub open spec fn spec_parse_sdo(d: Seq<u8>) -> Result<SdoAccessView, ParseError> {
    if d.len() < 2 {
        Err(ParseError::SdoTooShort)
    } else {
        let request = d[0] % 16 == COE_SDO_REQUEST;
        if d.len() < 10 {
            Ok(
                SdoAccessView {
                    index: 0,
                    subindex: 0,
                    request,
                    data: d,
                    completed: false,
                    error_code: None,
                },
            )
        } else {
            let cs = (d[1] / 32) % 4;
            let expedited = (d[1] / 2) % 2 == 1;
            let size_indicated = d[1] % 2 == 1;
            let error = d[0] >= 128;
            let data = if expedited && size_indicated {
                let n = 4 - (d[1] / 4) % 4;
                let end = if 8 + n < d.len() {
                    8 + n
                } else {
                    d.len() as int
                };
                d.subrange(8, end)
            } else if d.len() > 8 {
                d.subrange(8, d.len() as int)
            } else {
                Seq::empty()
            };
            Ok(
                SdoAccessView {
                    index: le16(d[2], d[3]),
                    subindex: d[4],
                    request,
                    data,
                    completed: cs == 0 || cs == 1,
                    error_code: if error {
                        Some(le32(d[4], d[5], d[6], d[7]))
                    } else {
                        None
                    },
                },
            )
        }
    }
}

/// Decodes an SDO transfer from a CoE payload.
fn try_parse_sdo(data: &[u8]) -> (r: Result<SdoAccess, ParseError>)
    ensures
        match spec_parse_sdo(data@) {
            Ok(v) => r is Ok && r->Ok_0@ == v,
            Err(e) => r == Err::<SdoAccess, ParseError>(e),
        },
{
    if data.len() < 2 {
        return Err(ParseError::SdoTooShort);
    }
    let service = data[0] % 16;
    let request = service == COE_SDO_REQUEST;
    if data.len() < 10 {
        return Ok(
            SdoAccess {
                index: 0,
                subindex: 0,
                request,
                data: slice_to_vec(data),
                completed: false,
                error_code: None,
            },
        );
    }
    let index: u16 = data[2] as u16 + 256 * (data[3] as u16);
    let subindex = data[4];
    let cs = (data[1] / 32) % 4;
    let completed = cs == 0x00 || cs == 0x01;
    let expedited = (data[1] / 2) % 2 == 1;
    let size_indicated = data[1] % 2 == 1;
    let error = data[0] >= 128;
    let mut payload: Vec<u8> = Vec::new();
    if expedited && size_indicated {
        let n: usize = (4 - (data[1] / 4) % 4) as usize;
        let end: usize = if 8 + n < data.len() {
            8 + n
        } else {
            data.len()
        };
        payload = slice_to_vec(slice_subrange(data, 8, end));
    } else if data.len() > 8 {
        payload = slice_to_vec(slice_subrange(data, 8, data.len()));
    }
    let error_code = if error && data.len() >= 8 {
        Some(
            data[4] as u32 + 256 * (data[5] as u32) + 65536 * (data[6] as u32) + 16777216 * (
            data[7] as u32),
        )
    } else {
        None
    };
    let r = SdoAccess { index, subindex, request, data: payload, completed, error_code };
    assert(r@ =~= spec_parse_sdo(data@)->Ok_0);
    Ok(r)
}

/// The mailbox sub-frame that a datagram payload holds.
pub open spec fn spec_parse_mailbox(d: Seq<u8>) -> Result<MailboxMessageView, ParseError> {
    if d.len() < 6 {
        Err(ParseError::MailboxTooShort)
    } else if le16(d[0], d[1] % 8) == 0 {
        Err(ParseError::InvalidMailboxLength)
    } else {
        let msg_type = spec_mailbox_type_from_u8(d[5] % 16);
        let payload = d.subrange(6, d.len() as int);
        Ok(
            MailboxMessageView {
                station_address: le16(d[2], d[3]),
                channel: d[4] % 16,
                priority: (d[4] / 16) % 8,
                msg_type,
                counter: (d[5] / 16) % 8,
                payload,
                sdo: if msg_type == MailboxType::CoE && payload.len() >= 10 {
                    match spec_parse_sdo(payload) {
                        Ok(s) => Some(s),
                        Err(_) => None,
                    }
                } else {
                    None
                },
            },
        )
    }
}

/// Decodes a mailbox sub-frame from a datagram payload.
fn try_parse_mailbox(data: &[u8], station: u16) -> (r: Result<MailboxMessage, ParseError>)
    ensures
        match spec_parse_mailbox(data@) {
            Ok(v) => r is Ok && r->Ok_0@ == v,
            Err(e) => r == Err::<MailboxMessage, ParseError>(e),
        },
{
    if data.len() < 6 {
        return Err(ParseError::MailboxTooShort);
    }
    let mbox_len: u16 = data[0] as u16 + 256 * ((data[1] % 8) as u16);
    if mbox_len == 0 {
        return Err(ParseError::InvalidMailboxLength);
    }
    let addr: u16 = data[2] as u16 + 256 * (data[3] as u16);
    let chn_prio = data[4];
    let channel = chn_prio % 16;
    let priority = (chn_prio / 16) % 8;
    let typ_cnt = data[5];
    let msg_type = MailboxType::from_u8(typ_cnt % 16);
    let counter = (typ_cnt / 16) % 8;
    let payload: Vec<u8> = if data.len() > 6 {
        slice_to_vec(slice_subrange(data, 6, data.len()))
    } else {
        Vec::new()
    };
    assert(payload@ =~= data@.subrange(6, data@.len() as int));
    let sdo = if msg_type == MailboxType::CoE && payload.len() >= 10 {
        match try_parse_sdo(payload.as_slice()) {
            Ok(s) => Some(s),
            Err(_) => None,
        }
    } else {
        None
    };
    let r = MailboxMessage {
        station_address: addr,
        channel,
        priority,
        msg_type,
        counter,
        payload,
        sdo,
    };
    assert(r@ =~= spec_parse_mailbox(data@)->Ok_0);
    Ok(r)
}

/// Length of the data of the datagram at the start of `d` (11 bits).
pub open spec fn spec_dg_data_len(d: Seq<u8>) -> nat {
    (le16(d[6], d[7]) % 2048) as nat
}

/// The header of the datagram at the start of `d`.
pub open spec fn spec_dg_header(d: Seq<u8>) -> DatagramHeader {
    let len_flags = le16(d[6], d[7]);
    let dl = spec_dg_data_len(d);
    DatagramHeader {
        command: spec_command_from_u8(d[0]),
        index: d[1],
        slave_address: le16(d[2], d[3]),
        register_offset: le16(d[4], d[5]),
        data_length: dl as u16,
        circulating: (len_flags / 16384) % 2 == 1,
        next: len_flags >= 32768,
        irq: le16(d[8], d[9]),
        working_counter: le16(d[10 + dl as int], d[11 + dl as int]),
    }
}

/// Whether a datagram with this command and data length is searched for a mailbox.
pub open spec fn carries_mailbox(cmd: EthercatCommand, dl: nat) -> bool {
    (cmd == EthercatCommand::LRW || cmd == EthercatCommand::APWR || cmd == EthercatCommand::FPRW)
        && dl >= 6
}

/// Whether a datagram with this command and data length carries process data.
pub open spec fn carries_pdo(cmd: EthercatCommand, dl: nat) -> bool {
    (cmd == EthercatCommand::LRW || cmd == EthercatCommand::BRD || cmd == EthercatCommand::BWR
        || cmd == EthercatCommand::BRW) && dl >= 2
}

/// The datagram at the start of `d` (which holds all of it).
#[verifier::opaque]
pub open spec fn spec_datagram(d: Seq<u8>) -> ParsedDatagramView {
    let header = spec_dg_header(d);
    let dl = spec_dg_data_len(d);
    let payload = d.subrange(10, 10 + dl as int);
    let mailbox = if carries_mailbox(header.command, dl) {
        match spec_parse_mailbox(payload) {
            Ok(m) => Some(m),
            Err(_) => None,
        }
    } else {
        None
    };
    let pdo = if carries_pdo(header.command, dl) && mailbox is None {
        Some(
            PdoDataView { slave_id: header.slave_address, pdo_index: 0x1600, entries: Map::empty() },
        )
    } else {
        None
    };
    let is_fault = header.register_offset == AL_ERROR_CODE_REG && dl >= 4;
    let code = le32(payload[0], payload[1], payload[2], payload[3]);
    ParsedDatagramView {
        header,
        data: payload,
        mailbox,
        pdo,
        is_fault,
        fault_code: if is_fault {
            Some(code)
        } else {
            None
        },
        fault_description: if is_fault {
            Some(spec_al_error_text(code))
        } else {
            None
        },
    }
}

/// The datagram at the start of `d` and the number of bytes it takes.
pub open spec fn spec_parse_datagram(d: Seq<u8>) -> Result<(ParsedDatagramView, nat), ParseError> {
    if d.len() < 10 {
        Err(ParseError::DatagramTooShort(d.len() as usize))
    } else if d.len() < 12 + spec_dg_data_len(d) {
        Err(
            ParseError::DatagramTruncated {
                need: (12 + spec_dg_data_len(d)) as usize,
                have: d.len() as usize,
            },
        )
    } else {
        Ok((spec_datagram(d), 12 + spec_dg_data_len(d)))
    }
}

/// Decodes the datagram at the start of `data`; gives it and the number of
/// bytes it takes.
fn parse_datagram(data: &[u8]) -> (r: Result<(ParsedDatagram, usize), ParseError>)
    ensures
        match spec_parse_datagram(data@) {
            Ok((dg, n)) => r is Ok && r->Ok_0.0@ == dg && r->Ok_0.1 == n,
            Err(e) => r == Err::<(ParsedDatagram, usize), ParseError>(e),
        },
{
    if data.len() < 10 {
        return Err(ParseError::DatagramTooShort(data.len()));
    }
    let cmd_raw = data[0];
    let idx = data[1];
    let addr: u16 = data[2] as u16 + 256 * (data[3] as u16);
    let regoff: u16 = data[4] as u16 + 256 * (data[5] as u16);
    let len_flags: u16 = data[6] as u16 + 256 * (data[7] as u16);
    let data_len: u16 = len_flags % 2048;
    let circulating = (len_flags / 16384) % 2 == 1;
    let next = len_flags >= 32768;
    let irq: u16 = data[8] as u16 + 256 * (data[9] as u16);
    let header_size: usize = 10;
    let total_size: usize = header_size + data_len as usize + 2;
    if data.len() < total_size {
        return Err(ParseError::DatagramTruncated { need: total_size, have: data.len() });
    }
    let payload: Vec<u8> = slice_to_vec(
        slice_subrange(data, header_size, header_size + data_len as usize),
    );
    let wc_offset = header_size + data_len as usize;
    let working_counter: u16 = data[wc_offset] as u16 + 256 * (data[wc_offset + 1] as u16);
    let command = EthercatCommand::from_u8(cmd_raw);
    let header = DatagramHeader {
        command,
        index: idx,
        slave_address: addr,
        register_offset: regoff,
        data_length: data_len,
        circulating,
        next,
        irq,
        working_counter,
    };
    let mut mailbox: Option<MailboxMessage> = None;
    let mut pdo: Option<PdoData> = None;
    let mut is_fault = false;
    let mut fault_code: Option<u32> = None;
    let mut fault_description: Option<String> = None;
    if (command == EthercatCommand::LRW || command == EthercatCommand::APWR || command
        == EthercatCommand::FPRW) && data_len >= 6 {
        match try_parse_mailbox(payload.as_slice(), addr) {
            Ok(mbox) => {
                mailbox = Some(mbox);
            },
            Err(_) => {},
        }
    }
    if (command == EthercatCommand::LRW || command == EthercatCommand::BRD || command
        == EthercatCommand::BWR || command == EthercatCommand::BRW) && data_len >= 2
        && mailbox.is_none() {
        let entries = std::collections::HashMap::new();
        pdo = Some(PdoData { slave_id: addr, pdo_index: 0x1600, entries });
    }
    if regoff == AL_ERROR_CODE_REG && data_len >= 4 {
        is_fault = true;
        let code: u32 = payload[0] as u32 + 256 * (payload[1] as u32) + 65536 * (payload[2] as u32)
            + 16777216 * (payload[3] as u32);
        fault_code = Some(code);
        fault_description = Some(describe_al_error(code));
    }
    let dg = ParsedDatagram {
        header,
        data: payload,
        mailbox,
        pdo,
        is_fault,
        fault_code,
        fault_description,
    };
    proof {
        reveal(spec_datagram);
        let v = spec_datagram(data@);
        assert(dg@.data =~= v.data);
        assert(dg@.header == v.header);
        if dg.pdo is Some {
            assert(dg@.pdo->Some_0.entries =~= Map::<u16, crate::RegisterValueView>::empty());
        }
        assert(dg@ =~= v);
    }
    Ok((dg, total_size))
}


/// A decoded datagram takes at least its header and working counter, and no
/// more than the bytes it was decoded from.
pub proof fn lemma_datagram_consumed(d: Seq<u8>)
    ensures
        spec_parse_datagram(d) matches Ok((_, n)) ==> 12 <= n <= d.len(),
{
}

/// The datagrams between `offset` and `end` in `d`, decoded one after the
/// other while more than a datagram header remains.
pub open spec fn spec_parse_datagrams(d: Seq<u8>, offset: nat, end: nat) -> Result<
    Seq<ParsedDatagramView>,
    ParseError,
>
    decreases end - offset,
{
    if offset + 10 < end && end <= d.len() {
        match spec_parse_datagram(d.subrange(offset as int, end as int)) {
            Err(e) => Err(e),
            Ok((dg, n)) => {
                proof {
                    lemma_datagram_consumed(d.subrange(offset as int, end as int));
                }
                match spec_parse_datagrams(d, offset + n, end) {
                    Err(e) => Err(e),
                    Ok(rest) => Ok(seq![dg] + rest),
                }
            },
        }
    } else {
        Ok(Seq::empty())
    }
}

/// Where the datagram area of a captured frame ends: after the length that its
/// EtherCAT header announces, or at the end of the bytes if they end first.
pub open spec fn spec_payload_end(raw: RawEthercatFrame) -> nat {
    let announced = 18 + raw.header.ec_header.length;
    if announced < raw.data@.len() {
        announced as nat
    } else {
        raw.data@.len()
    }
}

/// The frame that a captured frame decodes to, given its datagrams.
pub open spec fn spec_frame_view(raw: RawEthercatFrame, dgs: Seq<ParsedDatagramView>) -> EthercatFrameView {
    EthercatFrameView {
        timestamp_ns: raw.timestamp_ns,
        frame_length: raw.frame_length,
        ethernet_dest: raw.header.ethernet_dest@,
        ethernet_src: raw.header.ethernet_src@,
        ethertype: raw.header.ethertype,
        datagrams: dgs,
    }
}

spec fn prepend_dgs(
    pre: Seq<ParsedDatagramView>,
    r: Result<Seq<ParsedDatagramView>, ParseError>,
) -> Result<Seq<ParsedDatagramView>, ParseError> {
    match r {
        Ok(rest) => Ok(pre + rest),
        Err(e) => Err(e),
    }
}

/// Decodes the datagrams of a captured frame.
///
/// The frame's headers are taken as they stand in `raw.header`; the datagrams
/// are read from byte 18 of `raw.data` up to the announced EtherCAT length.
pub fn parse_ethercat_frame(raw: &RawEthercatFrame) -> (r: Result<EthercatFrame, ParseError>)
    ensures
        match spec_parse_datagrams(raw.data@, 18, spec_payload_end(*raw)) {
            Ok(dgs) => r is Ok && r->Ok_0@ == spec_frame_view(*raw, dgs),
            Err(e) => r == Err::<EthercatFrame, ParseError>(e),
        },
{
    let header = &raw.header;
    let data = raw.data.as_slice();
    let mut offset: usize = 18;
    let announced: usize = offset + header.ec_header.length as usize;
    let payload_end: usize = if announced < data.len() {
        announced
    } else {
        data.len()
    };
    let mut datagrams: Vec<ParsedDatagram> = Vec::new();
    let ghost whole = spec_parse_datagrams(data@, 18, payload_end as nat);
    while offset + 10 < payload_end
        invariant
            payload_end <= data@.len(),
            payload_end == spec_payload_end(*raw),
            offset <= payload_end || offset == 18,
            data@ == raw.data@,
            whole == spec_parse_datagrams(data@, 18, payload_end as nat),
            whole == prepend_dgs(
                datagrams_view(datagrams@),
                spec_parse_datagrams(data@, offset as nat, payload_end as nat),
            ),
        ensures
            offset + 10 >= payload_end,
        decreases payload_end - offset,
    {
        let ghost before = datagrams_view(datagrams@);
        let slice = slice_subrange(data, offset, payload_end);
        let (dg, consumed) = match parse_datagram(slice) {
            Ok(p) => p,
            Err(e) => {
                return Err(e);
            },
        };
        proof {
            lemma_datagram_consumed(slice@);
        }
        datagrams.push(dg);
        offset = offset + consumed;
        proof {
            assert(datagrams_view(datagrams@) =~= before.push(dg@));
            match spec_parse_datagrams(data@, offset as nat, payload_end as nat) {
                Ok(rest) => {
                    assert(before + (seq![dg@] + rest) =~= before.push(dg@) + rest);
                },
                Err(_) => {},
            }
        }
        if consumed < 12 {
            break;
        }
    }
    let frame = EthercatFrame {
        timestamp_ns: raw.timestamp_ns,
        frame_length: raw.frame_length,
        ethernet_dest: header.ethernet_dest,
        ethernet_src: header.ethernet_src,
        ethertype: header.ethertype,
        datagrams,
    };
    proof {
        assert(datagrams_view(datagrams@) + Seq::<ParsedDatagramView>::empty() =~= datagrams_view(
            datagrams@,
        ));
        assert(frame@ =~= spec_frame_view(*raw, datagrams_view(datagrams@)));
    }
    Ok(frame)
}


/// Number of datagrams addressed to slave `s`.
pub open spec fn slave_tally(dgs: Seq<ParsedDatagramView>, s: u16) -> nat
    decreases dgs.len(),
{
    if dgs.len() == 0 {
        0
    } else {
        slave_tally(dgs.drop_last(), s) + if dgs.last().header.slave_address == s {
            1nat
        } else {
            0nat
        }
    }
}

/// Number of datagrams that carry a mailbox of type `t`.
pub open spec fn mailbox_tally(dgs: Seq<ParsedDatagramView>, t: MailboxType) -> nat
    decreases dgs.len(),
{
    if dgs.len() == 0 {
        0
    } else {
        mailbox_tally(dgs.drop_last(), t) + if dgs.last().mailbox matches Some(m) && m.msg_type
            == t {
            1nat
        } else {
            0nat
        }
    }
}

/// Number of datagrams that carry process data.
pub open spec fn pdo_tally(dgs: Seq<ParsedDatagramView>) -> nat
    decreases dgs.len(),
{
    if dgs.len() == 0 {
        0
    } else {
        pdo_tally(dgs.drop_last()) + if dgs.last().pdo is Some {
            1nat
        } else {
            0nat
        }
    }
}

/// Number of datagrams that report a fault.
pub open spec fn fault_tally(dgs: Seq<ParsedDatagramView>) -> nat
    decreases dgs.len(),
{
    if dgs.len() == 0 {
        0
    } else {
        fault_tally(dgs.drop_last()) + if dgs.last().is_fault {
            1nat
        } else {
            0nat
        }
    }
}

/// The count a map holds for a slave, zero when it holds none.
pub open spec fn count_or_zero(m: Map<u16, u64>, s: u16) -> nat {
    if m.contains_key(s) {
        m[s] as nat
    } else {
        0
    }
}

/// Counting the datagrams of `frame` into `stats` overflows no counter.
pub open spec fn stats_can_absorb(stats: ParseStats, frame: EthercatFrameView) -> bool {
    let dgs = frame.datagrams;
    &&& stats.total_frames + 1 <= u64::MAX
    &&& stats.total_datagrams + dgs.len() <= u64::MAX
    &&& stats.coe_messages + mailbox_tally(dgs, MailboxType::CoE) <= u64::MAX
    &&& stats.foe_messages + mailbox_tally(dgs, MailboxType::FoE) <= u64::MAX
    &&& stats.eoe_messages + mailbox_tally(dgs, MailboxType::EoE) <= u64::MAX
    &&& stats.pdo_updates + pdo_tally(dgs) <= u64::MAX
    &&& stats.fault_count + fault_tally(dgs) <= u64::MAX
    &&& forall|s: u16| #[trigger] count_or_zero(stats.slave_counts@, s) + slave_tally(dgs, s) <= u64::MAX
}

/// `new` is `old` with the datagrams of `frame` counted in.
pub open spec fn stats_absorbed(old: ParseStats, new: ParseStats, frame: EthercatFrameView) -> bool {
    let dgs = frame.datagrams;
    &&& new.total_frames == old.total_frames + 1
    &&& new.total_datagrams == old.total_datagrams + dgs.len()
    &&& new.coe_messages == old.coe_messages + mailbox_tally(dgs, MailboxType::CoE)
    &&& new.foe_messages == old.foe_messages + mailbox_tally(dgs, MailboxType::FoE)
    &&& new.eoe_messages == old.eoe_messages + mailbox_tally(dgs, MailboxType::EoE)
    &&& new.pdo_updates == old.pdo_updates + pdo_tally(dgs)
    &&& new.fault_count == old.fault_count + fault_tally(dgs)
    &&& forall|s: u16| #[trigger]
        new.slave_counts@.contains_key(s) == (old.slave_counts@.contains_key(s) || slave_tally(
            dgs,
            s,
        ) > 0)
    &&& forall|s: u16| #[trigger]
        count_or_zero(new.slave_counts@, s) == count_or_zero(old.slave_counts@, s) + slave_tally(
            dgs,
            s,
        )
}

proof fn lemma_tally_prefix(dgs: Seq<ParsedDatagramView>, i: int)
    requires
        0 <= i < dgs.len(),
    ensures
        dgs.take(i + 1).drop_last() == dgs.take(i),
        dgs.take(i + 1).last() == dgs[i],
{
    assert(dgs.take(i + 1).drop_last() =~= dgs.take(i));
}

proof fn lemma_tally_bounded(dgs: Seq<ParsedDatagramView>, i: int)
    requires
        0 <= i <= dgs.len(),
    ensures
        forall|s: u16| #[trigger] slave_tally(dgs.take(i), s) <= slave_tally(dgs, s),
        forall|t: MailboxType| #[trigger] mailbox_tally(dgs.take(i), t) <= mailbox_tally(dgs, t),
        pdo_tally(dgs.take(i)) <= pdo_tally(dgs),
        fault_tally(dgs.take(i)) <= fault_tally(dgs),
    decreases dgs.len() - i,
{
    if i < dgs.len() {
        lemma_tally_bounded(dgs, i + 1);
        lemma_tally_prefix(dgs, i);
        assert forall|s: u16| #[trigger] slave_tally(dgs.take(i), s) <= slave_tally(dgs, s) by {
            assert(slave_tally(dgs.take(i + 1), s) >= slave_tally(dgs.take(i), s));
        }
        assert forall|t: MailboxType| #[trigger] mailbox_tally(dgs.take(i), t) <= mailbox_tally(dgs, t) by {
            assert(mailbox_tally(dgs.take(i + 1), t) >= mailbox_tally(dgs.take(i), t));
        }
    } else {
        assert(dgs.take(i) =~= dgs);
    }
}

/// Counts the datagrams of a frame into the statistics.
pub fn update_stats(stats: &mut ParseStats, frame: &EthercatFrame)
    requires
        stats_can_absorb(*old(stats), frame@),
    ensures
        stats_absorbed(*old(stats), *final(stats), frame@),
{
    let ghost dgs = frame@.datagrams;
    let ghost start = *stats;
    stats.total_frames = stats.total_frames + 1;
    let n = frame.datagrams.len();
    let mut i: usize = 0;
    proof {
        assert(dgs.take(0) =~= Seq::<ParsedDatagramView>::empty());
        lemma_tally_bounded(dgs, 0);
    }
    while i < n
        invariant
            n == frame.datagrams@.len(),
            dgs == frame@.datagrams,
            dgs.len() == n,
            i <= n,
            stats_can_absorb(start, frame@),
            stats.total_frames == start.total_frames + 1,
            stats.total_datagrams == start.total_datagrams + i,
            stats.coe_messages == start.coe_messages + mailbox_tally(dgs.take(i as int), MailboxType::CoE),
            stats.foe_messages == start.foe_messages + mailbox_tally(dgs.take(i as int), MailboxType::FoE),
            stats.eoe_messages == start.eoe_messages + mailbox_tally(dgs.take(i as int), MailboxType::EoE),
            stats.pdo_updates == start.pdo_updates + pdo_tally(dgs.take(i as int)),
            stats.fault_count == start.fault_count + fault_tally(dgs.take(i as int)),
            forall|s: u16| #[trigger]
                stats.slave_counts@.contains_key(s) == (start.slave_counts@.contains_key(s)
                    || slave_tally(dgs.take(i as int), s) > 0),
            forall|s: u16| #[trigger]
                count_or_zero(stats.slave_counts@, s) == count_or_zero(start.slave_counts@, s)
                    + slave_tally(dgs.take(i as int), s),
        decreases n - i,
    {
        let dg = &frame.datagrams[i];
        proof {
            lemma_tally_prefix(dgs, i as int);
            lemma_tally_bounded(dgs, i as int + 1);
            assert(dgs[i as int] == dg@);
            let next = dgs.take(i as int + 1);
            assert(slave_tally(next, dg.header.slave_address) == slave_tally(dgs.take(i as int), dg.header.slave_address) + 1);
            assert(mailbox_tally(next, MailboxType::CoE) >= mailbox_tally(dgs.take(i as int), MailboxType::CoE));
            assert(mailbox_tally(next, MailboxType::FoE) >= mailbox_tally(dgs.take(i as int), MailboxType::FoE));
            assert(mailbox_tally(next, MailboxType::EoE) >= mailbox_tally(dgs.take(i as int), MailboxType::EoE));
            assert(pdo_tally(next) >= pdo_tally(dgs.take(i as int)));
            assert(fault_tally(next) >= fault_tally(dgs.take(i as int)));
        }
        stats.total_datagrams = stats.total_datagrams + 1;
        let addr = dg.header.slave_address;
        let current: u64 = match stats.slave_counts.get(&addr) {
            Some(c) => *c,
            None => 0,
        };
        proof {
            assert(count_or_zero(stats.slave_counts@, addr) == current);
            assert(count_or_zero(start.slave_counts@, addr) + slave_tally(dgs, addr) <= u64::MAX);
        }
        let ghost before = stats.slave_counts@;
        stats.slave_counts.insert(addr, current + 1);
        match &dg.mailbox {
            Some(mbox) => {
                match mbox.msg_type {
                    MailboxType::CoE => {
                        stats.coe_messages = stats.coe_messages + 1;
                    },
                    MailboxType::FoE => {
                        stats.foe_messages = stats.foe_messages + 1;
                    },
                    MailboxType::EoE => {
                        stats.eoe_messages = stats.eoe_messages + 1;
                    },
                    _ => {},
                }
            },
            None => {},
        }
        if dg.pdo.is_some() {
            stats.pdo_updates = stats.pdo_updates + 1;
        }
        if dg.is_fault {
            stats.fault_count = stats.fault_count + 1;
        }
        i = i + 1;
        proof {
            assert forall|s: u16|
                #[trigger] count_or_zero(stats.slave_counts@, s) == count_or_zero(
                    start.slave_counts@,
                    s,
                ) + slave_tally(dgs.take(i as int), s) by {
                if s != addr {
                    assert(count_or_zero(stats.slave_counts@, s) == count_or_zero(before, s));
                }
            }
        }
    }
    proof {
        assert(dgs.take(n as int) =~= dgs);
    }
}


/// Selection of datagrams by slave, mailbox type, fault code and command.
/// An empty list selects every value.
pub struct FilterOptions {
    pub slave_ids: Vec<u16>,
    pub msg_types: Vec<MailboxType>,
    pub fault_codes: Vec<u32>,
    pub commands: Vec<EthercatCommand>,
}

/// No criterion is set.
pub open spec fn filter_is_empty(f: FilterOptions) -> bool {
    f.slave_ids@.len() == 0 && f.msg_types@.len() == 0 && f.fault_codes@.len() == 0
        && f.commands@.len() == 0
}

/// A datagram meets every criterion that is set.
pub open spec fn spec_matches_datagram(f: FilterOptions, dg: ParsedDatagramView) -> bool {
    &&& f.slave_ids@.len() == 0 || f.slave_ids@.contains(dg.header.slave_address)
    &&& f.commands@.len() == 0 || f.commands@.contains(dg.header.command)
    &&& f.fault_codes@.len() == 0 || (dg.is_fault && (dg.fault_code matches Some(c)
        && f.fault_codes@.contains(c)))
    &&& f.msg_types@.len() == 0 || (dg.mailbox matches Some(m) && f.msg_types@.contains(
        m.msg_type,
    ))
}

/// A frame is selected: no criterion is set, or one of its datagrams meets them all.
pub open spec fn spec_matches_frame(f: FilterOptions, frame: EthercatFrameView) -> bool {
    filter_is_empty(f) || exists|i: int|
        0 <= i < frame.datagrams.len() && #[trigger] spec_matches_datagram(f, frame.datagrams[i])
}

/// The datagrams of a frame that meet the criteria, in their order.
pub open spec fn spec_kept(f: FilterOptions, dgs: Seq<ParsedDatagramView>) -> Seq<ParsedDatagramView> {
    dgs.filter(|d: ParsedDatagramView| spec_matches_datagram(f, d))
}

/// What filtering gives for a frame: the frame cut down to its selected
/// datagrams, or nothing when it is not selected or none is left.
pub open spec fn spec_filter_frame(f: FilterOptions, frame: EthercatFrameView) -> Option<EthercatFrameView> {
    if spec_matches_frame(f, frame) && spec_kept(f, frame.datagrams).len() > 0 {
        Some(EthercatFrameView { datagrams: spec_kept(f, frame.datagrams), ..frame })
    } else {
        None
    }
}

fn contains_u16(v: &Vec<u16>, x: u16) -> (r: bool)
    ensures
        r == v@.contains(x),
{
    let mut i: usize = 0;
    while i < v.len()
        invariant
            i <= v.len(),
            forall|j: int| 0 <= j < i ==> v@[j] != x,
        decreases v.len() - i,
    {
        if v[i] == x {
            return true;
        }
        i = i + 1;
    }
    false
}

fn contains_u32(v: &Vec<u32>, x: u32) -> (r: bool)
    ensures
        r == v@.contains(x),
{
    let mut i: usize = 0;
    while i < v.len()
        invariant
            i <= v.len(),
            forall|j: int| 0 <= j < i ==> v@[j] != x,
        decreases v.len() - i,
    {
        if v[i] == x {
            return true;
        }
        i = i + 1;
    }
    false
}

fn contains_command(v: &Vec<EthercatCommand>, x: EthercatCommand) -> (r: bool)
    ensures
        r == v@.contains(x),
{
    let mut i: usize = 0;
    while i < v.len()
        invariant
            i <= v.len(),
            forall|j: int| 0 <= j < i ==> v@[j] != x,
        decreases v.len() - i,
    {
        if v[i] == x {
            return true;
        }
        i = i + 1;
    }
    false
}

fn contains_mailbox_type(v: &Vec<MailboxType>, x: MailboxType) -> (r: bool)
    ensures
        r == v@.contains(x),
{
    let mut i: usize = 0;
    while i < v.len()
        invariant
            i <= v.len(),
            forall|j: int| 0 <= j < i ==> v@[j] != x,
        decreases v.len() - i,
    {
        if v[i] == x {
            return true;
        }
        i = i + 1;
    }
    false
}

impl FilterOptions {
    /// A filter with no criterion: it selects everything.
    pub fn new() -> (f: Self)
        ensures
            filter_is_empty(f),
    {
        FilterOptions {
            slave_ids: Vec::new(),
            msg_types: Vec::new(),
            fault_codes: Vec::new(),
            commands: Vec::new(),
        }
    }

    /// Whether the frame is selected.
    pub fn matches_frame(&self, frame: &EthercatFrame) -> (r: bool)
        ensures
            r == spec_matches_frame(*self, frame@),
    {
        if self.slave_ids.len() == 0 && self.msg_types.len() == 0 && self.fault_codes.len() == 0
            && self.commands.len() == 0 {
            return true;
        }
        let mut i: usize = 0;
        while i < frame.datagrams.len()
            invariant
                i <= frame.datagrams@.len(),
                !filter_is_empty(*self),
                forall|j: int|
                    0 <= j < i ==> !#[trigger] spec_matches_datagram(*self, frame@.datagrams[j]),
            decreases frame.datagrams.len() - i,
        {
            if self.matches_datagram(&frame.datagrams[i]) {
                assert(frame@.datagrams[i as int] == frame.datagrams@[i as int]@);
                return true;
            }
            assert(frame@.datagrams[i as int] == frame.datagrams@[i as int]@);
            i = i + 1;
        }
        false
    }

    /// Whether the datagram meets every criterion that is set.
    pub fn matches_datagram(&self, dg: &ParsedDatagram) -> (r: bool)
        ensures
            r == spec_matches_datagram(*self, dg@),
    {
        if self.slave_ids.len() != 0 && !contains_u16(&self.slave_ids, dg.header.slave_address) {
            return false;
        }
        if self.commands.len() != 0 && !contains_command(&self.commands, dg.header.command) {
            return false;
        }
        if self.fault_codes.len() != 0 {
            let has_match = dg.is_fault && match dg.fault_code {
                Some(c) => contains_u32(&self.fault_codes, c),
                None => false,
            };
            if !has_match {
                return false;
            }
        }
        if self.msg_types.len() != 0 {
            match &dg.mailbox {
                Some(mbox) => {
                    if !contains_mailbox_type(&self.msg_types, mbox.msg_type) {
                        return false;
                    }
                },
                None => {
                    return false;
                },
            }
        }
        true
    }

    /// The frame cut down to its selected datagrams; nothing when the frame is
    /// not selected or no datagram of it is.
    pub fn filter_frame(&self, frame: EthercatFrame) -> (r: Option<EthercatFrame>)
        ensures
            match spec_filter_frame(*self, frame@) {
                Some(v) => r is Some && r->Some_0@ == v,
                None => r is None,
            },
    {
        if self.matches_frame(&frame) {
            let EthercatFrame {
                timestamp_ns,
                frame_length,
                ethernet_dest,
                ethernet_src,
                ethertype,
                datagrams,
            } = frame;
            let ghost all = datagrams_view(datagrams@);
            let ghost pred = |d: ParsedDatagramView| spec_matches_datagram(*self, d);
            let mut rest = datagrams;
            let mut kept: Vec<ParsedDatagram> = Vec::new();
            let ghost mut taken: int = 0;
            proof {
                assert(datagrams_view(rest@) =~= all.skip(0));
                assert(all.take(0) =~= Seq::<ParsedDatagramView>::empty());
                reveal(Seq::filter);
                assert(datagrams_view(kept@) =~= all.take(0).filter(pred));
            }
            while rest.len() > 0
                invariant
                    0 <= taken <= all.len(),
                    datagrams_view(rest@) == all.skip(taken),
                    datagrams_view(kept@) == all.take(taken).filter(pred),
                    pred == (|d: ParsedDatagramView| spec_matches_datagram(*self, d)),
                decreases rest.len(),
            {
                let ghost old_rest = rest@;
                proof {
                    assert(datagrams_view(old_rest).len() == old_rest.len());
                    assert(datagrams_view(old_rest)[0] == old_rest[0]@);
                }
                let dg = rest.remove(0);
                proof {
                    assert(dg@ == all[taken]);
                    assert(all.take(taken + 1).drop_last() =~= all.take(taken));
                    assert(all.take(taken + 1).last() == all[taken]);
                }
                let keep = self.matches_datagram(&dg);
                let ghost before = kept@;
                proof {
                    assert(pred(dg@) == keep);
                    let next = all.take(taken + 1);
                    reveal(Seq::filter);
                    assert(next.filter(pred) == if pred(next.last()) {
                        next.drop_last().filter(pred).push(next.last())
                    } else {
                        next.drop_last().filter(pred)
                    });
                }
                if keep {
                    kept.push(dg);
                    proof {
                        assert(datagrams_view(kept@) =~= datagrams_view(before).push(all[taken]));
                    }
                }
                proof {
                    assert forall|j: int| 0 <= j < rest@.len() implies #[trigger] datagrams_view(rest@)[j]
                        == all.skip(taken + 1)[j] by {
                        assert(rest@[j] == old_rest[j + 1]);
                        assert(datagrams_view(old_rest)[j + 1] == old_rest[j + 1]@);
                        assert(all.skip(taken)[j + 1] == all[taken + 1 + j]);
                    }
                    assert(datagrams_view(rest@) =~= all.skip(taken + 1));
                    taken = taken + 1;
                }
            }
            proof {
                assert(all.take(taken) =~= all);
            }
            if kept.len() == 0 {
                None
            } else {
                let out = EthercatFrame {
                    timestamp_ns,
                    frame_length,
                    ethernet_dest,
                    ethernet_src,
                    ethertype,
                    datagrams: kept,
                };
                proof {
                    assert(out@ =~= spec_filter_frame(*self, frame@)->Some_0);
                }
                Some(out)
            }
        } else {
            None
        }
    }
}

impl Default for FilterOptions {
    fn default() -> (f: Self)
        ensures
            filter_is_empty(f),
    {
        Self::new()
    }
}

} // verus!
