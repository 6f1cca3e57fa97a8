//! Parsing and analysis of EtherCAT traffic: frame and datagram decoding,
//! mailbox (CoE/FoE/EoE) sub-frames, PDO mapping through register templates,
//! filtering and statistics.

pub mod text;
pub mod ethercat_parser;
pub mod pdo_converter;
pub mod generator;
pub mod laws;
pub mod pipeline;
pub mod cli;
pub mod io_reader;
pub mod live_capture;
pub mod output;
pub mod pretty;

use vstd::prelude::*;

verus! {

/// Ethertype that marks an EtherCAT frame.
pub const ETHERCAT_ETHERTYPE: u16 = 0x88A4;

/// CoE service number of an SDO request.
pub const COE_SDO_REQUEST: u8 = 0x01;

/// CoE service number of an SDO response.
pub const COE_SDO_RESPONSE: u8 = 0x02;

/// Register holding the application-layer status.
pub const AL_STATUS_REG: u16 = 0x0130;

/// Register holding the application-layer control word.
pub const AL_CONTROL_REG: u16 = 0x0120;

/// Register holding the application-layer error code.
pub const AL_ERROR_CODE_REG: u16 = 0x0134;

/// EtherCAT datagram command.
#[derive(Debug, Clone, Copy, PartialEq, Eq, Structural)]
pub enum EthercatCommand {
    NoOp,
    APRD,
    APWR,
    APRW,
    FPRD,
    FPWR,
    FPRW,
    BRD,
    BWR,
    BRW,
    LRD,
    LWR,
    LRW,
    ARMW,
    Unknown(u8),
}

/// The command that a command byte denotes.
pub open spec fn spec_command_from_u8(v: u8) -> EthercatCommand {
    match v {
        0x00 => EthercatCommand::NoOp,
        0x01 => EthercatCommand::APRD,
        0x02 => EthercatCommand::APWR,
        0x03 => EthercatCommand::APRW,
        0x04 => EthercatCommand::FPRD,
        0x05 => EthercatCommand::FPWR,
        0x06 => EthercatCommand::FPRW,
        0x07 => EthercatCommand::BRD,
        0x08 => EthercatCommand::BWR,
        0x09 => EthercatCommand::BRW,
        0x0A => EthercatCommand::LRD,
        0x0B => EthercatCommand::LWR,
        0x0C => EthercatCommand::LRW,
        0x0D => EthercatCommand::ARMW,
        other => EthercatCommand::Unknown(other),
    }
}

/// The display name of a command.
pub open spec fn spec_command_name(c: EthercatCommand) -> Seq<char> {
    match c {
        EthercatCommand::NoOp => "NoOp"@,
        EthercatCommand::APRD => "APRD"@,
        EthercatCommand::APWR => "APWR"@,
        EthercatCommand::APRW => "APRW"@,
        EthercatCommand::FPRD => "FPRD"@,
        EthercatCommand::FPWR => "FPWR"@,
        EthercatCommand::FPRW => "FPRW"@,
        EthercatCommand::BRD => "BRD"@,
        EthercatCommand::BWR => "BWR"@,
        EthercatCommand::BRW => "BRW"@,
        EthercatCommand::LRD => "LRD"@,
        EthercatCommand::LWR => "LWR"@,
        EthercatCommand::LRW => "LRW"@,
        EthercatCommand::ARMW => "ARMW"@,
        EthercatCommand::Unknown(_) => "UNKNOWN"@,
    }
}

impl EthercatCommand {
    /// Decodes a command byte; bytes without a command become `Unknown`.
    pub fn from_u8(v: u8) -> (c: Self)
        ensures
            c == spec_command_from_u8(v),
    {
        match v {
            0x00 => EthercatCommand::NoOp,
            0x01 => EthercatCommand::APRD,
            0x02 => EthercatCommand::APWR,
            0x03 => EthercatCommand::APRW,
            0x04 => EthercatCommand::FPRD,
            0x05 => EthercatCommand::FPWR,
            0x06 => EthercatCommand::FPRW,
            0x07 => EthercatCommand::BRD,
            0x08 => EthercatCommand::BWR,
            0x09 => EthercatCommand::BRW,
            0x0A => EthercatCommand::LRD,
            0x0B => EthercatCommand::LWR,
            0x0C => EthercatCommand::LRW,
            0x0D => EthercatCommand::ARMW,
            other => EthercatCommand::Unknown(other),
        }
    }

    /// The display name of the command.
    pub fn to_str(&self) -> (s: &'static str)
        ensures
            s@ == spec_command_name(*self),
    {
        match self {
            EthercatCommand::NoOp => "NoOp",
            EthercatCommand::APRD => "APRD",
            EthercatCommand::APWR => "APWR",
            EthercatCommand::APRW => "APRW",
            EthercatCommand::FPRD => "FPRD",
            EthercatCommand::FPWR => "FPWR",
            EthercatCommand::FPRW => "FPRW",
            EthercatCommand::BRD => "BRD",
            EthercatCommand::BWR => "BWR",
            EthercatCommand::BRW => "BRW",
            EthercatCommand::LRD => "LRD",
            EthercatCommand::LWR => "LWR",
            EthercatCommand::LRW => "LRW",
            EthercatCommand::ARMW => "ARMW",
            EthercatCommand::Unknown(_) => "UNKNOWN",
        }
    }
}


/// Mailbox protocol carried in a mailbox sub-frame.
#[derive(Debug, Clone, Copy, PartialEq, Eq, Structural)]
pub enum MailboxType {
    CoE,
    FoE,
    EoE,
    SoE,
    AoE,
    VOE,
    Unknown(u8),
}

/// The mailbox type that a type nibble denotes.
pub open spec fn spec_mailbox_type_from_u8(v: u8) -> MailboxType {
    match v {
        0x03 => MailboxType::CoE,
        0x05 => MailboxType::FoE,
        0x02 => MailboxType::EoE,
        0x04 => MailboxType::SoE,
        0x06 => MailboxType::AoE,
        0x07 => MailboxType::VOE,
        other => MailboxType::Unknown(other),
    }
}

/// The display name of a mailbox type.
pub open spec fn spec_mailbox_type_name(t: MailboxType) -> Seq<char> {
    match t {
        MailboxType::CoE => "CoE"@,
        MailboxType::FoE => "FoE"@,
        MailboxType::EoE => "EoE"@,
        MailboxType::SoE => "SoE"@,
        MailboxType::AoE => "AoE"@,
        MailboxType::VOE => "VoE"@,
        MailboxType::Unknown(_) => "Unknown"@,
    }
}

impl MailboxType {
    /// Decodes a mailbox type number; numbers without a protocol become `Unknown`.
    pub fn from_u8(v: u8) -> (t: Self)
        ensures
            t == spec_mailbox_type_from_u8(v),
    {
        match v {
            0x03 => MailboxType::CoE,
            0x05 => MailboxType::FoE,
            0x02 => MailboxType::EoE,
            0x04 => MailboxType::SoE,
            0x06 => MailboxType::AoE,
            0x07 => MailboxType::VOE,
            other => MailboxType::Unknown(other),
        }
    }

    /// The display name of the mailbox type.
    pub fn to_str(&self) -> (s: &'static str)
        ensures
            s@ == spec_mailbox_type_name(*self),
    {
        match self {
            MailboxType::CoE => "CoE",
            MailboxType::FoE => "FoE",
            MailboxType::EoE => "EoE",
            MailboxType::SoE => "SoE",
            MailboxType::AoE => "AoE",
            MailboxType::VOE => "VoE",
            MailboxType::Unknown(_) => "Unknown",
        }
    }
}

/// State of a slave's application-layer state machine.
#[derive(Debug, Clone, Copy, PartialEq, Eq, Structural)]
pub enum StateMachineState {
    Init,
    PreOp,
    SafeOp,
    Op,
    Unknown(u8),
}

/// The state that a state byte denotes.
pub open spec fn spec_state_from_u8(v: u8) -> StateMachineState {
    match v {
        0x01 => StateMachineState::Init,
        0x02 => StateMachineState::PreOp,
        0x04 => StateMachineState::SafeOp,
        0x08 => StateMachineState::Op,
        other => StateMachineState::Unknown(other),
    }
}

/// The display name of a state.
pub open spec fn spec_state_name(s: StateMachineState) -> Seq<char> {
    match s {
        StateMachineState::Init => "INIT"@,
        StateMachineState::PreOp => "PRE-OP"@,
        StateMachineState::SafeOp => "SAFE-OP"@,
        StateMachineState::Op => "OP"@,
        StateMachineState::Unknown(_) => "UNKNOWN"@,
    }
}

impl StateMachineState {
    /// Decodes a state byte; bytes that are not a single state bit become `Unknown`.
    pub fn from_u8(v: u8) -> (st: Self)
        ensures
            st == spec_state_from_u8(v),
    {
        match v {
            0x01 => StateMachineState::Init,
            0x02 => StateMachineState::PreOp,
            0x04 => StateMachineState::SafeOp,
            0x08 => StateMachineState::Op,
            other => StateMachineState::Unknown(other),
        }
    }

    /// The display name of the state.
    pub fn to_str(&self) -> (s: &'static str)
        ensures
            s@ == spec_state_name(*self),
    {
        match self {
            StateMachineState::Init => "INIT",
            StateMachineState::PreOp => "PRE-OP",
            StateMachineState::SafeOp => "SAFE-OP",
            StateMachineState::Op => "OP",
            StateMachineState::Unknown(_) => "UNKNOWN",
        }
    }
}

/// Header fields of one datagram.
#[derive(Debug, Clone, Copy, PartialEq, Eq, Structural)]
pub struct DatagramHeader {
    pub command: EthercatCommand,
    pub index: u8,
    pub slave_address: u16,
    pub register_offset: u16,
    pub data_length: u16,
    pub circulating: bool,
    pub next: bool,
    pub irq: u16,
    pub working_counter: u16,
}

/// An SDO transfer found in a CoE mailbox.
#[derive(Debug, Clone)]
pub struct SdoAccess {
    pub index: u16,
    pub subindex: u8,
    pub request: bool,
    pub data: Vec<u8>,
    pub completed: bool,
    pub error_code: Option<u32>,
}

/// Mathematical value of an [`SdoAccess`].
#[verifier::ext_equal]
pub struct SdoAccessView {
    pub index: u16,
    pub subindex: u8,
    pub request: bool,
    pub data: Seq<u8>,
    pub completed: bool,
    pub error_code: Option<u32>,
}

impl View for SdoAccess {
    type V = SdoAccessView;

    open spec fn view(&self) -> SdoAccessView {
        SdoAccessView {
            index: self.index,
            subindex: self.subindex,
            request: self.request,
            data: self.data@,
            completed: self.completed,
            error_code: self.error_code,
        }
    }
}

/// A mailbox sub-frame carried in a datagram.
#[derive(Debug, Clone)]
pub struct MailboxMessage {
    pub station_address: u16,
    pub channel: u8,
    pub priority: u8,
    pub msg_type: MailboxType,
    pub counter: u8,
    pub payload: Vec<u8>,
    pub sdo: Option<SdoAccess>,
}

/// Mathematical value of a [`MailboxMessage`].
#[verifier::ext_equal]
pub struct MailboxMessageView {
    pub station_address: u16,
    pub channel: u8,
    pub priority: u8,
    pub msg_type: MailboxType,
    pub counter: u8,
    pub payload: Seq<u8>,
    pub sdo: Option<SdoAccessView>,
}

/// The view of an optional SDO transfer.
pub open spec fn opt_sdo_view(o: Option<SdoAccess>) -> Option<SdoAccessView> {
    match o {
        Some(s) => Some(s@),
        None => None,
    }
}

impl View for MailboxMessage {
    type V = MailboxMessageView;

    open spec fn view(&self) -> MailboxMessageView {
        MailboxMessageView {
            station_address: self.station_address,
            channel: self.channel,
            priority: self.priority,
            msg_type: self.msg_type,
            counter: self.counter,
            payload: self.payload@,
            sdo: opt_sdo_view(self.sdo),
        }
    }
}

/// The view of an optional string.
pub open spec fn opt_string_view(o: Option<String>) -> Option<Seq<char>> {
    match o {
        Some(s) => Some(s@),
        None => None,
    }
}

/// A decoded PDO value.
///
/// `Float` and `Double` hold the IEEE-754 bit patterns of the little-endian
/// value as it was read; the library never computes with them.
#[derive(Debug, Clone)]
pub enum PdoValueType {
    Bool(bool),
    Int8(i8),
    Int16(i16),
    Int32(i32),
    Int64(i64),
    Uint8(u8),
    Uint16(u16),
    Uint32(u32),
    Uint64(u64),
    Float(u32),
    Double(u64),
    Bytes(Vec<u8>),
    String(String),
    State(StateMachineState),
}

/// Mathematical value of a [`PdoValueType`].
pub enum PdoValueView {
    Bool(bool),
    Int8(i8),
    Int16(i16),
    Int32(i32),
    Int64(i64),
    Uint8(u8),
    Uint16(u16),
    Uint32(u32),
    Uint64(u64),
    Float(u32),
    Double(u64),
    Bytes(Seq<u8>),
    Text(Seq<char>),
    State(StateMachineState),
}

impl View for PdoValueType {
    type V = PdoValueView;

    open spec fn view(&self) -> PdoValueView {
        match self {
            PdoValueType::Bool(v) => PdoValueView::Bool(*v),
            PdoValueType::Int8(v) => PdoValueView::Int8(*v),
            PdoValueType::Int16(v) => PdoValueView::Int16(*v),
            PdoValueType::Int32(v) => PdoValueView::Int32(*v),
            PdoValueType::Int64(v) => PdoValueView::Int64(*v),
            PdoValueType::Uint8(v) => PdoValueView::Uint8(*v),
            PdoValueType::Uint16(v) => PdoValueView::Uint16(*v),
            PdoValueType::Uint32(v) => PdoValueView::Uint32(*v),
            PdoValueType::Uint64(v) => PdoValueView::Uint64(*v),
            PdoValueType::Float(v) => PdoValueView::Float(*v),
            PdoValueType::Double(v) => PdoValueView::Double(*v),
            PdoValueType::Bytes(b) => PdoValueView::Bytes(b@),
            PdoValueType::String(s) => PdoValueView::Text(s@),
            PdoValueType::State(s) => PdoValueView::State(*s),
        }
    }
}

/// One decoded register of a PDO.
#[derive(Debug, Clone)]
pub struct RegisterValue {
    pub index: u16,
    pub subindex: u8,
    pub name: Option<String>,
    pub description: Option<String>,
    pub unit: Option<String>,
    pub raw_bytes: Vec<u8>,
    pub value: PdoValueType,
    pub business_comment: Option<String>,
}

/// Mathematical value of a [`RegisterValue`].
#[verifier::ext_equal]
pub struct RegisterValueView {
    pub index: u16,
    pub subindex: u8,
    pub name: Option<Seq<char>>,
    pub description: Option<Seq<char>>,
    pub unit: Option<Seq<char>>,
    pub raw_bytes: Seq<u8>,
    pub value: PdoValueView,
    pub business_comment: Option<Seq<char>>,
}

impl View for RegisterValue {
    type V = RegisterValueView;

    open spec fn view(&self) -> RegisterValueView {
        RegisterValueView {
            index: self.index,
            subindex: self.subindex,
            name: opt_string_view(self.name),
            description: opt_string_view(self.description),
            unit: opt_string_view(self.unit),
            raw_bytes: self.raw_bytes@,
            value: self.value@,
            business_comment: opt_string_view(self.business_comment),
        }
    }
}

/// Process data of one datagram, keyed by entry number.
#[derive(Debug, Clone)]
pub struct PdoData {
    pub slave_id: u16,
    pub pdo_index: u16,
    pub entries: std::collections::HashMap<u16, RegisterValue>,
}

/// Mathematical value of a [`PdoData`].
#[verifier::ext_equal]
pub struct PdoDataView {
    pub slave_id: u16,
    pub pdo_index: u16,
    pub entries: Map<u16, RegisterValueView>,
}

/// The views of the values of a register map.
pub open spec fn entries_view(m: Map<u16, RegisterValue>) -> Map<u16, RegisterValueView> {
    m.map_values(|r: RegisterValue| r@)
}

impl View for PdoData {
    type V = PdoDataView;

    open spec fn view(&self) -> PdoDataView {
        PdoDataView {
            slave_id: self.slave_id,
            pdo_index: self.pdo_index,
            entries: entries_view(self.entries@),
        }
    }
}

/// The view of an optional mailbox.
pub open spec fn opt_mailbox_view(o: Option<MailboxMessage>) -> Option<MailboxMessageView> {
    match o {
        Some(m) => Some(m@),
        None => None,
    }
}

/// The view of optional process data.
pub open spec fn opt_pdo_view(o: Option<PdoData>) -> Option<PdoDataView> {
    match o {
        Some(p) => Some(p@),
        None => None,
    }
}

/// One decoded datagram with what was recognized in it.
#[derive(Debug, Clone)]
pub struct ParsedDatagram {
    pub header: DatagramHeader,
    pub data: Vec<u8>,
    pub mailbox: Option<MailboxMessage>,
    pub pdo: Option<PdoData>,
    pub is_fault: bool,
    pub fault_code: Option<u32>,
    pub fault_description: Option<String>,
}

/// Mathematical value of a [`ParsedDatagram`].
#[verifier::ext_equal]
pub struct ParsedDatagramView {
    pub header: DatagramHeader,
    pub data: Seq<u8>,
    pub mailbox: Option<MailboxMessageView>,
    pub pdo: Option<PdoDataView>,
    pub is_fault: bool,
    pub fault_code: Option<u32>,
    pub fault_description: Option<Seq<char>>,
}

impl View for ParsedDatagram {
    type V = ParsedDatagramView;

    open spec fn view(&self) -> ParsedDatagramView {
        ParsedDatagramView {
            header: self.header,
            data: self.data@,
            mailbox: opt_mailbox_view(self.mailbox),
            pdo: opt_pdo_view(self.pdo),
            is_fault: self.is_fault,
            fault_code: self.fault_code,
            fault_description: opt_string_view(self.fault_description),
        }
    }
}

/// A decoded EtherCAT frame.
#[derive(Debug, Clone)]
pub struct EthercatFrame {
    pub timestamp_ns: u64,
    pub frame_length: usize,
    pub ethernet_dest: [u8; 6],
    pub ethernet_src: [u8; 6],
    pub ethertype: u16,
    pub datagrams: Vec<ParsedDatagram>,
}

/// The views of a sequence of datagrams.
pub open spec fn datagrams_view(s: Seq<ParsedDatagram>) -> Seq<ParsedDatagramView> {
    s.map_values(|d: ParsedDatagram| d@)
}

/// Mathematical value of an [`EthercatFrame`].
#[verifier::ext_equal]
pub struct EthercatFrameView {
    pub timestamp_ns: u64,
    pub frame_length: usize,
    pub ethernet_dest: Seq<u8>,
    pub ethernet_src: Seq<u8>,
    pub ethertype: u16,
    pub datagrams: Seq<ParsedDatagramView>,
}

impl View for EthercatFrame {
    type V = EthercatFrameView;

    open spec fn view(&self) -> EthercatFrameView {
        EthercatFrameView {
            timestamp_ns: self.timestamp_ns,
            frame_length: self.frame_length,
            ethernet_dest: self.ethernet_dest@,
            ethernet_src: self.ethernet_src@,
            ethertype: self.ethertype,
            datagrams: datagrams_view(self.datagrams@),
        }
    }
}

/// One register of a slave in a mapping template.
#[derive(Debug, Clone)]
pub struct TemplateRegister {
    pub index: u16,
    pub subindex: u8,
    pub name: String,
    pub description: String,
    pub data_type: String,
    pub unit: Option<String>,
    pub business_comment: Option<String>,
}

/// One slave of a mapping template.
#[derive(Debug, Clone)]
pub struct TemplateSlave {
    pub slave_id: u16,
    pub device_name: String,
    pub vendor_id: u32,
    pub product_code: u32,
    pub registers: Vec<TemplateRegister>,
}

/// A register mapping template: binds registers to business semantics.
#[derive(Debug, Clone)]
pub struct ParseTemplate {
    pub version: String,
    pub production_line: String,
    pub description: String,
    pub slaves: Vec<TemplateSlave>,
}

/// Running counters over parsed frames.
#[derive(Debug, Clone)]
pub struct ParseStats {
    pub total_frames: u64,
    pub total_datagrams: u64,
    pub coe_messages: u64,
    pub foe_messages: u64,
    pub eoe_messages: u64,
    pub pdo_updates: u64,
    pub fault_count: u64,
    pub slave_counts: std::collections::HashMap<u16, u64>,
}

impl Default for ParseStats {
    fn default() -> (s: Self)
        ensures
            s.total_frames == 0,
            s.total_datagrams == 0,
            s.coe_messages == 0,
            s.foe_messages == 0,
            s.eoe_messages == 0,
            s.pdo_updates == 0,
            s.fault_count == 0,
            s.slave_counts@ == Map::<u16, u64>::empty(),
    {
        ParseStats {
            total_frames: 0,
            total_datagrams: 0,
            coe_messages: 0,
            foe_messages: 0,
            eoe_messages: 0,
            pdo_updates: 0,
            fault_count: 0,
            slave_counts: std::collections::HashMap::new(),
        }
    }
}

} // verus!
