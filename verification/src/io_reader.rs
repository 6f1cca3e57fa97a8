//! Decoding of capture formats: pcap files, raw record files and record
//! streams. Reading the bytes is left to the caller; what they mean is
//! decided here.

use crate::ethercat_parser::{
    be16, header_of, spec_ethertype, spec_header_error, FrameHeader, ParseError, RawEthercatFrame,
};
use crate::text::{concat, hex_digits, owned, spec_decimal, spec_hex_digits, u64_to_decimal};
use crate::generator::u32_le;
use crate::ETHERCAT_ETHERTYPE;
use vstd::prelude::*;
use vstd::slice::slice_subrange;

verus! {

/// Magic number of a little-endian pcap file with microsecond timestamps.
pub const PCAP_MAGIC: u32 = 0xa1b2c3d4;

/// Magic number of a little-endian pcap file with nanosecond timestamps.
pub const PCAP_MAGIC_NS: u32 = 0xa1b23c4d;

/// Magic number of a big-endian pcap file with microsecond timestamps.
pub const PCAP_MAGIC_REVERSED: u32 = 0xd4c3b2a1;

/// Magic number of a big-endian pcap file with nanosecond timestamps.
pub const PCAP_MAGIC_REVERSED_NS: u32 = 0x4d3cb2a1;

/// Link type of Ethernet captures.
pub const DLT_EN10MB: u32 = 1;

/// Where frames are read from.
pub enum InputSource {
    File(String),
    Stdin,
}

/// Which reader serves a source.
#[derive(Debug, Clone, PartialEq, Eq)]
pub enum ReaderKind {
    /// A pcap file (extension `.pcap` or `.cap`, in any case).
    Pcap(String),
    /// A file of raw records.
    Raw(String),
    /// Raw records on standard input.
    Stdin,
}

/// Why a capture could not be read.
#[derive(Debug, Clone, Copy, PartialEq, Eq, Structural)]
pub enum ReaderError {
    /// The pcap file is big-endian.
    BigEndianPcap,
    /// The file does not start with a pcap magic number (the number read is given).
    InvalidMagic(u32),
    /// The pcap file does not hold Ethernet frames (the link type read is given).
    UnsupportedLinkType(u32),
    /// The stream ended inside a record.
    UnexpectedEof { need: usize, have: usize },
    /// A file ended inside a header or a record.
    ShortRead,
    /// A record holds no valid frame headers.
    Frame(ParseError),
}

/// The human-readable message of a reader error.
pub open spec fn spec_reader_message(e: ReaderError) -> Seq<char> {
    match e {
        ReaderError::BigEndianPcap => "Big-endian pcap format not supported"@,
        ReaderError::InvalidMagic(m) => "Invalid pcap magic number: 0x"@ + spec_hex_digits(m as nat),
        ReaderError::UnsupportedLinkType(t) => "Unsupported link type: "@ + spec_decimal(t as nat)
            + ". Expected Ethernet (DLT_EN10MB=1)"@,
        ReaderError::UnexpectedEof { need, have } => "Unexpected EOF: need "@ + spec_decimal(
            need as nat,
        ) + " bytes, have "@ + spec_decimal(have as nat),
        ReaderError::ShortRead => "failed to fill whole buffer"@,
        ReaderError::Frame(e) => crate::ethercat_parser::spec_error_message(e),
    }
}

impl ReaderError {
    /// The human-readable message of the error.
    pub fn message(&self) -> (s: String)
        ensures
            s@ == spec_reader_message(*self),
    {
        match self {
            ReaderError::BigEndianPcap => owned("Big-endian pcap format not supported"),
            ReaderError::InvalidMagic(m) => concat(
                "Invalid pcap magic number: 0x",
                hex_digits(*m as u64).as_str(),
            ),
            ReaderError::UnsupportedLinkType(t) => {
                let a = concat("Unsupported link type: ", u64_to_decimal(*t as u64).as_str());
                concat(a.as_str(), ". Expected Ethernet (DLT_EN10MB=1)")
            },
            ReaderError::UnexpectedEof { need, have } => {
                let a = concat("Unexpected EOF: need ", u64_to_decimal(*need as u64).as_str());
                let b = concat(a.as_str(), " bytes, have ");
                concat(b.as_str(), u64_to_decimal(*have as u64).as_str())
            },
            ReaderError::ShortRead => owned("failed to fill whole buffer"),
            ReaderError::Frame(e) => e.message(),
        }
    }
}

/// Extension that `std::path::Path::extension` finds in a path.
pub uninterp spec fn spec_path_extension(path: Seq<char>) -> Option<Seq<char>>;

/// Lower-case form that `str::to_lowercase` gives a string.
pub uninterp spec fn spec_lowercase(s: Seq<char>) -> Seq<char>;

/// `std::path::Path::extension` on a path given as a string (the part of the
/// file name after its last dot, not counting a leading dot). The result is
/// named by `spec_path_extension`.
#[verifier::external_body]
fn path_extension(path: &str) -> (e: Option<String>)
    ensures
        match spec_path_extension(path@) {
            Some(x) => e is Some && e->Some_0@ == x,
            None => e is None,
        },
{
    std::path::Path::new(path).extension().and_then(|s| s.to_str()).map(|s| s.to_string())
}

/// `str::to_lowercase`: the Unicode lower-case form of a string, named by
/// `spec_lowercase`.
#[verifier::external_body]
fn lowercase(s: &str) -> (l: String)
    ensures
        l@ == spec_lowercase(s@),
{
    s.to_lowercase()
}

/// The reader for a source, given the lower-cased extension of its path:
/// pcap for `pcap` and `cap`, raw records otherwise.
pub open spec fn spec_reader_kind(source: InputSource, lowered_ext: Option<Seq<char>>) -> ReaderKind {
    match source {
        InputSource::File(p) => match lowered_ext {
            Some(e) => if e == "pcap"@ || e == "cap"@ {
                ReaderKind::Pcap(p)
            } else {
                ReaderKind::Raw(p)
            },
            None => ReaderKind::Raw(p),
        },
        InputSource::Stdin => ReaderKind::Stdin,
    }
}

/// The reader for a source, given the lower-cased extension of its path.
pub fn reader_kind_for(source: InputSource, lowered_ext: Option<String>) -> (k: ReaderKind)
    ensures
        k == spec_reader_kind(
            source,
            match lowered_ext {
                Some(e) => Some(e@),
                None => None,
            },
        ),
{
    match source {
        InputSource::File(p) => match lowered_ext {
            Some(e) => {
                if crate::text::str_equals(e.as_str(), "pcap") || crate::text::str_equals(
                    e.as_str(),
                    "cap",
                ) {
                    ReaderKind::Pcap(p)
                } else {
                    ReaderKind::Raw(p)
                }
            },
            None => ReaderKind::Raw(p),
        },
        InputSource::Stdin => ReaderKind::Stdin,
    }
}

/// Chooses the reader for a source by the extension of its path.
pub fn create_reader(source: InputSource) -> (k: ReaderKind)
    ensures
        k == spec_reader_kind(
            source,
            match source {
                InputSource::File(p) => match spec_path_extension(p@) {
                    Some(e) => Some(spec_lowercase(e)),
                    None => None,
                },
                InputSource::Stdin => None,
            },
        ),
{
    let lowered = match &source {
        InputSource::File(p) => match path_extension(p.as_str()) {
            Some(e) => Some(lowercase(e.as_str())),
            None => None,
        },
        InputSource::Stdin => None,
    };
    reader_kind_for(source, lowered)
}

/// What the magic number of a pcap file says: nanosecond timestamps or not,
/// or why the file is refused.
pub open spec fn spec_pcap_magic(magic: u32) -> Result<bool, ReaderError> {
    if magic == PCAP_MAGIC {
        Ok(false)
    } else if magic == PCAP_MAGIC_NS {
        Ok(true)
    } else if magic == PCAP_MAGIC_REVERSED || magic == PCAP_MAGIC_REVERSED_NS {
        Err(ReaderError::BigEndianPcap)
    } else {
        Err(ReaderError::InvalidMagic(magic))
    }
}

/// Checks the magic number of a pcap file; says whether its timestamps are
/// in nanoseconds.
pub fn pcap_magic_kind(magic: u32) -> (r: Result<bool, ReaderError>)
    ensures
        r == spec_pcap_magic(magic),
{
    if magic == PCAP_MAGIC {
        Ok(false)
    } else if magic == PCAP_MAGIC_NS {
        Ok(true)
    } else if magic == PCAP_MAGIC_REVERSED || magic == PCAP_MAGIC_REVERSED_NS {
        Err(ReaderError::BigEndianPcap)
    } else {
        Err(ReaderError::InvalidMagic(magic))
    }
}

/// Checks that a pcap file holds Ethernet frames.
pub fn check_link_type(link_type: u32) -> (r: Result<(), ReaderError>)
    ensures
        link_type == DLT_EN10MB <==> r is Ok,
        r is Err ==> r == Err::<(), ReaderError>(ReaderError::UnsupportedLinkType(link_type)),
{
    if link_type != DLT_EN10MB {
        Err(ReaderError::UnsupportedLinkType(link_type))
    } else {
        Ok(())
    }
}

/// Timestamp in nanoseconds of a pcap record.
pub fn pcap_timestamp_ns(ts_sec: u32, ts_subsec: u32, is_nano: bool) -> (t: u64)
    ensures
        t == ts_sec * 1_000_000_000 + (if is_nano {
            ts_subsec as int
        } else {
            ts_subsec * 1_000
        }),
{
    if is_nano {
        (ts_sec as u64) * 1_000_000_000 + (ts_subsec as u64)
    } else {
        (ts_sec as u64) * 1_000_000_000 + (ts_subsec as u64) * 1_000
    }
}

/// A captured frame from its bytes, with its headers decoded.
pub fn frame_from_bytes(timestamp_ns: u64, frame_length: usize, data: Vec<u8>) -> (r: Result<
    RawEthercatFrame,
    ParseError,
>)
    ensures
        match spec_header_error(data@) {
            Some(e) => r == Err::<RawEthercatFrame, ParseError>(e),
            None => r is Ok && r->Ok_0.timestamp_ns == timestamp_ns && r->Ok_0.frame_length
                == frame_length && r->Ok_0.data@ == data@ && header_of(r->Ok_0.header, data@),
        },
{
    let header = match FrameHeader::parse(data.as_slice()) {
        Ok(h) => h,
        Err(e) => {
            return Err(e);
        },
    };
    Ok(RawEthercatFrame { timestamp_ns, frame_length, data, header })
}

/// What a pcap record gives: nothing when it is not an EtherCAT frame (it
/// is skipped), the frame when its headers decode, or why they do not.
pub fn accept_pcap_record(timestamp_ns: u64, incl_len: u32, data: Vec<u8>) -> (r: Result<
    Option<RawEthercatFrame>,
    ParseError,
>)
    ensures
        data@.len() < 14 || spec_ethertype(data@) != ETHERCAT_ETHERTYPE ==> r == Ok::<
            Option<RawEthercatFrame>,
            ParseError,
        >(None),
        data@.len() >= 14 && spec_ethertype(data@) == ETHERCAT_ETHERTYPE ==> match spec_header_error(
            data@,
        ) {
            Some(e) => r == Err::<Option<RawEthercatFrame>, ParseError>(e),
            None => r is Ok && r->Ok_0 is Some && r->Ok_0->Some_0.timestamp_ns == timestamp_ns
                && r->Ok_0->Some_0.frame_length == incl_len && r->Ok_0->Some_0.data@ == data@
                && header_of(r->Ok_0->Some_0.header, data@),
        },
{
    if data.len() >= 14 {
        let ethertype: u16 = data[13] as u16 + 256 * (data[12] as u16);
        if ethertype == ETHERCAT_ETHERTYPE {
            return match frame_from_bytes(timestamp_ns, incl_len as usize, data) {
                Ok(f) => Ok(Some(f)),
                Err(e) => Err(e),
            };
        }
    }
    Ok(None)
}

/// Little-endian value of four bytes.
pub fn u32_from_le(b: [u8; 4]) -> (v: u32)
    ensures
        v == crate::ethercat_parser::le32(b[0], b[1], b[2], b[3]),
{
    b[0] as u32 + 256 * (b[1] as u32) + 65536 * (b[2] as u32) + 16777216 * (b[3] as u32)
}

/// Little-endian value of eight bytes.
pub fn u64_from_le(b: [u8; 8]) -> (v: u64)
    ensures
        v == crate::ethercat_parser::le64(b@),
{
    let lo = u32_from_le([b[0], b[1], b[2], b[3]]);
    let hi = u32_from_le([b[4], b[5], b[6], b[7]]);
    lo as u64 + 4294967296 * (hi as u64)
}

/// The decoding side of a reader of raw records arriving on standard input
/// (a 32-bit little-endian frame size, a 64-bit little-endian timestamp, then
/// the frame): the bytes read so far that wait to be decoded. The caller
/// reads the stream and hands each read over.
pub struct StdinReader {
    buffer: Vec<u8>,
}

/// What a read from the stream means for filling the buffer.
pub enum ReadEvent {
    /// Bytes were read.
    Data(Vec<u8>),
    /// The stream ended.
    Eof,
    /// The read was interrupted and can be retried.
    Interrupted,
}

/// What to do after a read while filling the buffer.
#[derive(Debug, Clone, Copy, PartialEq, Eq, Structural)]
pub enum FillStep {
    /// Read again (unless the buffer now holds enough).
    Continue,
    /// The stream ended cleanly, between records.
    EndOfStream,
    /// The stream ended inside a record.
    Failed(ReaderError),
}

impl StdinReader {
    /// The bytes held.
    pub closed spec fn bytes(&self) -> Seq<u8> {
        self.buffer@
    }

    /// An empty buffer.
    pub fn new() -> (b: Self)
        ensures
            b.bytes() == Seq::<u8>::empty(),
    {
        StdinReader { buffer: Vec::with_capacity(65536) }
    }

    /// Number of bytes held.
    pub fn len(&self) -> (n: usize)
        ensures
            n == self.bytes().len(),
    {
        self.buffer.len()
    }

    /// Takes in what a read gave, while bytes are still missing.
    pub fn absorb(&mut self, event: ReadEvent, need: usize) -> (step: FillStep)
        ensures
            match event {
                ReadEvent::Data(d) => step == FillStep::Continue && final(self).bytes() == old(
                    self,
                ).bytes() + d@,
                ReadEvent::Eof => final(self).bytes() == old(self).bytes() && if old(
                    self,
                ).bytes().len() == 0 {
                    step == FillStep::EndOfStream
                } else {
                    step == FillStep::Failed(
                        ReaderError::UnexpectedEof {
                            need,
                            have: old(self).bytes().len() as usize,
                        },
                    )
                },
                ReadEvent::Interrupted => step == FillStep::Continue && final(self).bytes() == old(
                    self,
                ).bytes(),
            },
    {
        match event {
            ReadEvent::Data(d) => {
                self.buffer.extend_from_slice(d.as_slice());
                assert(self.buffer@ =~= old(self).buffer@ + d@);
                FillStep::Continue
            },
            ReadEvent::Eof => {
                if self.buffer.len() == 0 {
                    FillStep::EndOfStream
                } else {
                    FillStep::Failed(
                        ReaderError::UnexpectedEof { need, have: self.buffer.len() },
                    )
                }
            },
            ReadEvent::Interrupted => FillStep::Continue,
        }
    }

    /// The frame size announced by the record at the start of the buffer.
    pub fn frame_size(&self) -> (n: usize)
        requires
            self.bytes().len() >= 12,
        ensures
            n == crate::ethercat_parser::le32(
                self.bytes()[0],
                self.bytes()[1],
                self.bytes()[2],
                self.bytes()[3],
            ),
    {
        let b = &self.buffer;
        u32_from_le([b[0], b[1], b[2], b[3]]) as usize
    }

    /// Decodes the record at the start of the buffer and takes the whole
    /// record (header and frame) out of it, so that the next record starts
    /// the buffer.
    pub fn take_frame(&mut self, size: usize) -> (r: Result<RawEthercatFrame, ParseError>)
        requires
            12 + size <= old(self).bytes().len(),
        ensures
            final(self).bytes() == old(self).bytes().subrange(12 + size, old(self).bytes().len() as int),
            ({
                let data = old(self).bytes().subrange(12, 12 + size);
                match spec_header_error(data) {
                    Some(e) => r == Err::<RawEthercatFrame, ParseError>(e),
                    None => r is Ok && r->Ok_0.timestamp_ns == crate::ethercat_parser::le64(
                        old(self).bytes().subrange(4, 12),
                    ) && r->Ok_0.frame_length == size && r->Ok_0.data@ == data && header_of(
                        r->Ok_0.header,
                        data,
                    ),
                }
            }),
    {
        let b = &self.buffer;
        let ts = u64_from_le([b[4], b[5], b[6], b[7], b[8], b[9], b[10], b[11]]);
        proof {
            let t = [b[4], b[5], b[6], b[7], b[8], b[9], b[10], b[11]];
            assert(t@ =~= old(self).bytes().subrange(4, 12));
        }
        let blen: usize = self.buffer.len();
        assert(12 + size <= blen);
        let total = 12 + size;
        let data = vstd::slice::slice_to_vec(slice_subrange(self.buffer.as_slice(), 12, total));
        let rest: Vec<u8> = vstd::slice::slice_to_vec(
            slice_subrange(self.buffer.as_slice(), total, self.buffer.len()),
        );
        self.buffer = rest;
        frame_from_bytes(ts, size, data)
    }
}


/// Bytes of a capture file, read from the front.
pub struct ByteCursor {
    bytes: Vec<u8>,
    pos: usize,
}

impl ByteCursor {
    #[verifier::type_invariant]
    spec fn in_bounds(self) -> bool {
        self.pos <= self.bytes@.len()
    }

    /// The bytes not read yet.
    pub closed spec fn rest(&self) -> Seq<u8> {
        self.bytes@.subrange(self.pos as int, self.bytes@.len() as int)
    }

    /// A cursor at the start of the bytes.
    pub fn new(bytes: Vec<u8>) -> (c: Self)
        ensures
            c.rest() == bytes@,
    {
        let c = ByteCursor { bytes, pos: 0 };
        assert(c.rest() =~= c.bytes@);
        c
    }

    /// Number of bytes not read yet.
    pub fn remaining(&self) -> (n: usize)
        ensures
            n == self.rest().len(),
    {
        proof {
            use_type_invariant(self);
        }
        self.bytes.len() - self.pos
    }

    /// The byte `i` places ahead.
    fn peek(&self, i: usize) -> (b: u8)
        requires
            i < self.rest().len(),
        ensures
            b == self.rest()[i as int],
    {
        proof {
            use_type_invariant(self);
        }
        let _len = self.bytes.len();
        self.bytes[self.pos + i]
    }

    /// Little-endian 32-bit value `i` places ahead.
    fn peek_u32(&self, i: usize) -> (v: u32)
        requires
            i + 4 <= self.rest().len(),
        ensures
            v == le32_at(self.rest(), i as int),
    {
        let _n = self.remaining();
        u32_from_le([self.peek(i), self.peek(i + 1), self.peek(i + 2), self.peek(i + 3)])
    }

    /// Copies the `n` bytes `start` places ahead.
    fn copy(&self, start: usize, n: usize) -> (v: Vec<u8>)
        requires
            start + n <= self.rest().len(),
        ensures
            v@ == self.rest().subrange(start as int, start + n),
    {
        proof {
            use_type_invariant(self);
        }
        let _len = self.bytes.len();
        let from = self.pos + start;
        vstd::slice::slice_to_vec(slice_subrange(self.bytes.as_slice(), from, from + n))
    }

    /// Moves past `n` bytes.
    fn skip(&mut self, n: usize)
        requires
            n <= old(self).rest().len(),
        ensures
            final(self).rest() == old(self).rest().subrange(n as int, old(self).rest().len() as int),
    {
        proof {
            use_type_invariant(&*self);
        }
        let _len = self.bytes.len();
        let p = self.pos + n;
        self.pos = p;
        assert(self.rest() =~= old(self).rest().subrange(n as int, old(self).rest().len() as int));
    }

    /// Moves past everything.
    fn skip_all(&mut self)
        ensures
            final(self).rest() == Seq::<u8>::empty(),
    {
        let n = self.remaining();
        self.skip(n);
    }
}

/// Little-endian 32-bit value at `i` in `d`.
pub open spec fn le32_at(d: Seq<u8>, i: int) -> u32 {
    crate::ethercat_parser::le32(d[i], d[i + 1], d[i + 2], d[i + 3])
}

/// What reading one record gives.
#[verifier::ext_equal]
pub enum RecordOutcome {
    /// The file ended before the record (reading stops cleanly).
    End,
    /// A frame: its timestamp, its length as recorded, and its bytes.
    Frame { timestamp_ns: u64, frame_length: nat, data: Seq<u8> },
    /// Reading failed.
    Failed(ReaderError),
}

/// The next record of a raw file, and how many bytes it takes: a 32-bit
/// little-endian frame size, a 64-bit little-endian timestamp, the frame.
/// A file that ends before a complete size field ends cleanly; one that ends
/// later inside the record fails.
pub open spec fn spec_raw_record(rest: Seq<u8>) -> (RecordOutcome, nat) {
    if rest.len() < 4 {
        (RecordOutcome::End, rest.len())
    } else if rest.len() < 12 || rest.len() < 12 + le32_at(rest, 0) {
        (RecordOutcome::Failed(ReaderError::ShortRead), rest.len())
    } else {
        let size = le32_at(rest, 0);
        let data = rest.subrange(12, 12 + size);
        (
            match spec_header_error(data) {
                Some(e) => RecordOutcome::Failed(ReaderError::Frame(e)),
                None => RecordOutcome::Frame {
                    timestamp_ns: crate::ethercat_parser::le64(rest.subrange(4, 12)),
                    frame_length: size as nat,
                    data,
                },
            },
            12 + size as nat,
        )
    }
}

/// What a read gives for a record outcome.
pub open spec fn outcome_matches(
    r: Result<Option<RawEthercatFrame>, ReaderError>,
    o: RecordOutcome,
) -> bool {
    match o {
        RecordOutcome::End => r == Ok::<Option<RawEthercatFrame>, ReaderError>(None),
        RecordOutcome::Failed(e) => r == Err::<Option<RawEthercatFrame>, ReaderError>(e),
        RecordOutcome::Frame { timestamp_ns, frame_length, data } => {
            &&& r is Ok
            &&& r->Ok_0 is Some
            &&& r->Ok_0->Some_0.timestamp_ns == timestamp_ns
            &&& r->Ok_0->Some_0.frame_length == frame_length
            &&& r->Ok_0->Some_0.data@ == data
            &&& header_of(r->Ok_0->Some_0.header, data)
        },
    }
}

/// Reads captured frames one after another.
pub trait FrameReader {
    /// The next frame; `None` once the input has ended.
    fn read_next_frame(&mut self) -> Result<Option<RawEthercatFrame>, ReaderError>;
}

/// Reader of a raw capture file: records of a 32-bit little-endian frame
/// size, a 64-bit little-endian timestamp in nanoseconds, then the frame.
pub struct RawFileReader {
    cursor: ByteCursor,
}

impl RawFileReader {
    /// The bytes not read yet.
    pub closed spec fn rest(&self) -> Seq<u8> {
        self.cursor.rest()
    }

    /// A reader over the contents of a raw capture file.
    pub fn from_bytes(bytes: Vec<u8>) -> (r: Self)
        ensures
            r.rest() == bytes@,
    {
        RawFileReader { cursor: ByteCursor::new(bytes) }
    }
}

impl FrameReader for RawFileReader {
    fn read_next_frame(&mut self) -> (r: Result<Option<RawEthercatFrame>, ReaderError>)
        ensures
            outcome_matches(r, spec_raw_record(old(self).rest()).0),
            final(self).rest() == old(self).rest().subrange(
                spec_raw_record(old(self).rest()).1 as int,
                old(self).rest().len() as int,
            ),
    {
        let n = self.cursor.remaining();
        if n < 4 {
            self.cursor.skip_all();
            assert(old(self).rest().subrange(n as int, n as int) =~= Seq::<u8>::empty());
            return Ok(None);
        }
        if n < 12 {
            self.cursor.skip_all();
            assert(old(self).rest().subrange(n as int, n as int) =~= Seq::<u8>::empty());
            return Err(ReaderError::ShortRead);
        }
        let size = self.cursor.peek_u32(0);
        if n - 12 < size as usize {
            self.cursor.skip_all();
            assert(old(self).rest().subrange(n as int, n as int) =~= Seq::<u8>::empty());
            return Err(ReaderError::ShortRead);
        }
        let size = size as usize;
        let ts = u64_from_le(
            [
                self.cursor.peek(4),
                self.cursor.peek(5),
                self.cursor.peek(6),
                self.cursor.peek(7),
                self.cursor.peek(8),
                self.cursor.peek(9),
                self.cursor.peek(10),
                self.cursor.peek(11),
            ],
        );
        proof {
            let r = old(self).rest();
            let t = [r[4], r[5], r[6], r[7], r[8], r[9], r[10], r[11]];
            assert(t@ =~= r.subrange(4, 12));
        }
        let data = self.cursor.copy(12, size);
        self.cursor.skip(12 + size);
        match frame_from_bytes(ts, size, data) {
            Ok(f) => Ok(Some(f)),
            Err(e) => Err(ReaderError::Frame(e)),
        }
    }
}


/// Whether a pcap file's global header (24 bytes) is accepted, and if so
/// whether its timestamps are in nanoseconds.
pub open spec fn spec_pcap_header(bytes: Seq<u8>) -> Result<bool, ReaderError> {
    if bytes.len() < 4 {
        Err(ReaderError::ShortRead)
    } else {
        match spec_pcap_magic(le32_at(bytes, 0)) {
            Err(e) => Err(e),
            Ok(is_nano) => if bytes.len() < 24 {
                Err(ReaderError::ShortRead)
            } else if le32_at(bytes, 20) != DLT_EN10MB {
                Err(ReaderError::UnsupportedLinkType(le32_at(bytes, 20)))
            } else {
                Ok(is_nano)
            },
        }
    }
}

/// Timestamp in nanoseconds of a pcap record header.
pub open spec fn spec_pcap_ts(ts_sec: u32, ts_subsec: u32, is_nano: bool) -> u64 {
    (ts_sec * 1_000_000_000 + (if is_nano {
        ts_subsec as int
    } else {
        ts_subsec * 1_000
    })) as u64
}

/// The next EtherCAT frame of a pcap file from a record boundary, and how
/// many bytes reading it takes. Each record is a 16-byte header (seconds,
/// sub-second part, captured length, length on the wire, all 32-bit
/// little-endian) and the captured bytes; records that are not EtherCAT
/// frames are passed over.
pub open spec fn spec_pcap_record(rest: Seq<u8>, is_nano: bool) -> (RecordOutcome, nat)
    decreases rest.len(),
{
    if rest.len() < 4 {
        (RecordOutcome::End, rest.len())
    } else if rest.len() < 16 || rest.len() < 16 + le32_at(rest, 8) {
        (RecordOutcome::Failed(ReaderError::ShortRead), rest.len())
    } else {
        let incl = le32_at(rest, 8);
        let n = 16 + incl;
        let data = rest.subrange(16, n as int);
        if data.len() >= 14 && spec_ethertype(data) == ETHERCAT_ETHERTYPE {
            (
                match spec_header_error(data) {
                    Some(e) => RecordOutcome::Failed(ReaderError::Frame(e)),
                    None => RecordOutcome::Frame {
                        timestamp_ns: spec_pcap_ts(le32_at(rest, 0), le32_at(rest, 4), is_nano),
                        frame_length: incl as nat,
                        data,
                    },
                },
                n as nat,
            )
        } else {
            let next = spec_pcap_record(rest.subrange(n as int, rest.len() as int), is_nano);
            (next.0, (n + next.1) as nat)
        }
    }
}

/// Reader of a little-endian pcap file of Ethernet frames.
pub struct PcapFileReader {
    cursor: ByteCursor,
    is_nano: bool,
    link_type: u32,
}

impl PcapFileReader {
    /// The bytes not read yet.
    pub closed spec fn rest(&self) -> Seq<u8> {
        self.cursor.rest()
    }

    /// Whether the timestamps are in nanoseconds (else microseconds).
    pub closed spec fn nano(&self) -> bool {
        self.is_nano
    }

    /// A reader over the contents of a pcap file: checks the global header
    /// and stands at the first record.
    pub fn from_bytes(bytes: Vec<u8>) -> (r: Result<Self, ReaderError>)
        ensures
            match spec_pcap_header(bytes@) {
                Err(e) => r == Err::<Self, ReaderError>(e),
                Ok(n) => r is Ok && r->Ok_0.nano() == n && r->Ok_0.rest() == bytes@.subrange(
                    24,
                    bytes@.len() as int,
                ),
            },
    {
        let mut cursor = ByteCursor::new(bytes);
        let n = cursor.remaining();
        if n < 4 {
            return Err(ReaderError::ShortRead);
        }
        let magic = cursor.peek_u32(0);
        let is_nano = match pcap_magic_kind(magic) {
            Ok(b) => b,
            Err(e) => {
                return Err(e);
            },
        };
        if n < 24 {
            return Err(ReaderError::ShortRead);
        }
        let link_type = cursor.peek_u32(20);
        match check_link_type(link_type) {
            Ok(()) => {},
            Err(e) => {
                return Err(e);
            },
        }
        cursor.skip(24);
        Ok(PcapFileReader { cursor, is_nano, link_type })
    }
}

impl FrameReader for PcapFileReader {
    fn read_next_frame(&mut self) -> (r: Result<Option<RawEthercatFrame>, ReaderError>)
        ensures
            outcome_matches(r, spec_pcap_record(old(self).rest(), old(self).nano()).0),
            final(self).nano() == old(self).nano(),
            final(self).rest() == old(self).rest().subrange(
                spec_pcap_record(old(self).rest(), old(self).nano()).1 as int,
                old(self).rest().len() as int,
            ),
    {
        let ghost start = old(self).rest();
        let ghost nano = old(self).is_nano;
        loop
            invariant
                start == old(self).rest(),
                nano == old(self).is_nano,
                self.is_nano == nano,
                start.len() >= self.rest().len(),
                self.rest() == start.subrange(
                    start.len() - self.rest().len(),
                    start.len() as int,
                ),
                spec_pcap_record(start, nano).0 == spec_pcap_record(self.rest(), nano).0,
                spec_pcap_record(start, nano).1 == start.len() - self.rest().len()
                    + spec_pcap_record(self.rest(), nano).1,
            decreases self.rest().len(),
        {
            let ghost cur = self.rest();
            let n = self.cursor.remaining();
            if n < 4 {
                assert(spec_pcap_record(cur, nano).0 == RecordOutcome::End);
                self.cursor.skip_all();
                assert(start.subrange(start.len() as int, start.len() as int) =~= Seq::<u8>::empty());
                return Ok(None);
            }
            if n < 16 {
                assert(spec_pcap_record(cur, nano).0 == RecordOutcome::Failed(ReaderError::ShortRead));
                self.cursor.skip_all();
                assert(start.subrange(start.len() as int, start.len() as int) =~= Seq::<u8>::empty());
                return Err(ReaderError::ShortRead);
            }
            let incl_len = self.cursor.peek_u32(8);
            if n - 16 < incl_len as usize {
                self.cursor.skip_all();
                assert(start.subrange(start.len() as int, start.len() as int) =~= Seq::<u8>::empty());
                return Err(ReaderError::ShortRead);
            }
            let ts_sec = self.cursor.peek_u32(0);
            let ts_subsec = self.cursor.peek_u32(4);
            let size = incl_len as usize;
            let data = self.cursor.copy(16, size);
            self.cursor.skip(16 + size);
            proof {
                assert(self.rest() =~= start.subrange(
                    start.len() - self.rest().len(),
                    start.len() as int,
                ));
            }
            if data.len() >= 14 && data[13] as u16 + 256 * (data[12] as u16) == ETHERCAT_ETHERTYPE {
                let timestamp_ns = pcap_timestamp_ns(ts_sec, ts_subsec, self.is_nano);
                return match frame_from_bytes(timestamp_ns, size, data) {
                    Ok(f) => Ok(Some(f)),
                    Err(e) => Err(ReaderError::Frame(e)),
                };
            }
        }
    }
}

/// Little-endian bytes of a 64-bit value.
pub open spec fn u64_le(v: u64) -> Seq<u8> {
    u32_le((v % 0x1_0000_0000) as u32) + u32_le((v / 0x1_0000_0000) as u32)
}

/// The bytes of a raw capture record: the frame size (its low 32 bits),
/// the timestamp, the frame.
pub open spec fn spec_raw_record_bytes(timestamp_ns: u64, frame: Seq<u8>) -> Seq<u8> {
    u32_le((frame.len() % 0x1_0000_0000) as u32) + u64_le(timestamp_ns) + frame
}

/// Appends the little-endian bytes of a 32-bit value.
fn push_le32(out: &mut Vec<u8>, x: u32)
    ensures
        final(out)@ == old(out)@ + u32_le(x),
{
    out.push((x % 256) as u8);
    out.push(((x / 256) % 256) as u8);
    out.push(((x / 65536) % 256) as u8);
    out.push((x / 16777216) as u8);
    assert(final(out)@ =~= old(out)@ + u32_le(x));
}

/// Encodes a frame as a raw capture record.
pub fn encode_raw_record(timestamp_ns: u64, frame: &[u8]) -> (r: Vec<u8>)
    ensures
        r@ == spec_raw_record_bytes(timestamp_ns, frame@),
{
    let mut r: Vec<u8> = Vec::new();
    let len = frame.len();
    let size = ((len as u64) % 0x1_0000_0000) as u32;
    push_le32(&mut r, size);
    push_le32(&mut r, (timestamp_ns % 0x1_0000_0000) as u32);
    push_le32(&mut r, (timestamp_ns / 0x1_0000_0000) as u32);
    let mut i: usize = 0;
    while i < len
        invariant
            len == frame@.len(),
            i <= len,
            r@ == u32_le(size) + u64_le(timestamp_ns) + frame@.take(i as int),
        decreases len - i,
    {
        r.push(frame[i]);
        i = i + 1;
        assert(r@ =~= u32_le(size) + u64_le(timestamp_ns) + frame@.take(i as int));
    }
    assert(frame@.take(len as int) =~= frame@);
    r
}

} // verus!
