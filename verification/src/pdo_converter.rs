//! Conversion of raw process data into named, typed register values, driven by
//! a register mapping template.

use crate::ethercat_parser::{le16, le32, le64};
use crate::text::{
    hex_encode, i64_to_decimal, owned, spec_decimal, spec_hex_bytes, spec_signed_decimal,
    str_equals, u64_to_decimal,
};
use crate::{
    entries_view, opt_string_view, spec_state_from_u8, spec_state_name, ParseTemplate,
    ParsedDatagram, ParsedDatagramView, PdoData, PdoDataView, PdoValueType, PdoValueView,
    RegisterValue, RegisterValueView, StateMachineState, TemplateRegister, TemplateSlave,
    AL_STATUS_REG,
};
use std::collections::HashMap;
use vstd::prelude::*;
use vstd::slice::{slice_subrange, slice_to_vec};

verus! {

broadcast use vstd::std_specs::hash::group_hash_axioms;

/// Text that `String::from_utf8_lossy` makes of a byte string.
pub uninterp spec fn spec_utf8_lossy(bytes: Seq<u8>) -> Seq<char>;

/// `String::from_utf8_lossy`: decodes UTF-8, replacing each invalid sequence
/// by U+FFFD. The result is named by `spec_utf8_lossy`; on valid UTF-8 it is
/// the plain decoding. What it is on invalid input is not stated here.
#[verifier::external_body]
fn utf8_lossy(bytes: &[u8]) -> (s: String)
    ensures
        s@ == spec_utf8_lossy(bytes@),
        vstd::utf8::valid_utf8(bytes@) ==> s@ == vstd::utf8::decode_utf8(bytes@),
{
    String::from_utf8_lossy(bytes).to_string()
}

/// Key under which a template register is indexed.
pub open spec fn register_key(slave_id: u16, index: u16, subindex: u8) -> u64 {
    (slave_id * 0x100_0000 + index * 0x100 + subindex) as u64
}

/// The register index after slaves `0..i` and the first `j` registers of
/// slave `i` were entered, each entry replacing an earlier one of the same key.
pub open spec fn spec_register_index(slaves: Seq<TemplateSlave>, i: nat, j: nat) -> Map<
    u64,
    (usize, usize),
>
    decreases i, j,
{
    if j == 0 {
        if i == 0 || i > slaves.len() {
            Map::empty()
        } else {
            spec_register_index(slaves, (i - 1) as nat, slaves[i - 1].registers@.len())
        }
    } else if i >= slaves.len() {
        Map::empty()
    } else {
        let reg = slaves[i as int].registers@[j - 1];
        spec_register_index(slaves, i, (j - 1) as nat).insert(
            register_key(slaves[i as int].slave_id, reg.index, reg.subindex),
            (i as usize, (j - 1) as usize),
        )
    }
}

/// The slave index after slaves `0..i` were entered, later ones replacing
/// earlier ones of the same address.
pub open spec fn spec_device_index(slaves: Seq<TemplateSlave>, i: nat) -> Map<u16, usize>
    decreases i,
{
    if i == 0 || i > slaves.len() {
        Map::empty()
    } else {
        spec_device_index(slaves, (i - 1) as nat).insert(slaves[i - 1].slave_id, (i - 1) as usize)
    }
}

/// The slaves of an optional template.
pub open spec fn template_slaves(t: Option<ParseTemplate>) -> Seq<TemplateSlave> {
    match t {
        Some(t) => t.slaves@,
        None => Seq::empty(),
    }
}

/// The template register of a slave at an index and sub-index: the last one
/// that the template lists for them.
pub open spec fn spec_find_register(slaves: Seq<TemplateSlave>, slave_id: u16, index: u16, subindex: u8) -> Option<
    TemplateRegister,
> {
    let m = spec_register_index(slaves, slaves.len(), 0);
    let k = register_key(slave_id, index, subindex);
    if m.contains_key(k) {
        Some(slaves[m[k].0 as int].registers@[m[k].1 as int])
    } else {
        None
    }
}

/// The template slave of an address: the last one that the template lists for it.
pub open spec fn spec_find_device(slaves: Seq<TemplateSlave>, slave_id: u16) -> Option<TemplateSlave> {
    let m = spec_device_index(slaves, slaves.len());
    if m.contains_key(slave_id) {
        Some(slaves[m[slave_id] as int])
    } else {
        None
    }
}

/// Register index that a PDO index maps to (0x1600 maps to 0x7000).
pub open spec fn spec_reg_index(pdo_index: u16) -> u16 {
    if pdo_index >= 0x1600 {
        (0x7000 + (pdo_index - 0x1600)) as u16
    } else {
        0x7000
    }
}

/// The register index of a PDO index does not overflow 16 bits.
pub open spec fn pdo_index_in_range(pdo_index: u16) -> bool {
    pdo_index < 0x1600 || pdo_index - 0x1600 <= 0x8FFF
}

/// Data type of a template register, as its type name selects it.
#[derive(Debug, Clone, Copy, PartialEq, Eq, Structural)]
pub enum DataKind {
    Bool,
    Int8,
    Uint8,
    Int16,
    Uint16,
    Int32,
    Uint32,
    Int64,
    Uint64,
    Float,
    Double,
    State,
    Text,
    Raw,
}

/// The data type that a type name selects; unknown names select raw bytes.
pub open spec fn spec_data_kind(t: Seq<char>) -> DataKind {
    if t == "bool"@ || t == "BOOL"@ || t == "BOOLEAN"@ {
        DataKind::Bool
    } else if t == "int8"@ || t == "INT8"@ || t == "SINT"@ {
        DataKind::Int8
    } else if t == "uint8"@ || t == "UINT8"@ || t == "USINT"@ || t == "BYTE"@ {
        DataKind::Uint8
    } else if t == "int16"@ || t == "INT16"@ || t == "INT"@ {
        DataKind::Int16
    } else if t == "uint16"@ || t == "UINT16"@ || t == "UINT"@ || t == "WORD"@ {
        DataKind::Uint16
    } else if t == "int32"@ || t == "INT32"@ || t == "DINT"@ {
        DataKind::Int32
    } else if t == "uint32"@ || t == "UINT32"@ || t == "UDINT"@ || t == "DWORD"@ {
        DataKind::Uint32
    } else if t == "int64"@ || t == "INT64"@ || t == "LINT"@ {
        DataKind::Int64
    } else if t == "uint64"@ || t == "UINT64"@ || t == "ULINT"@ || t == "LWORD"@ {
        DataKind::Uint64
    } else if t == "float"@ || t == "FLOAT"@ || t == "REAL"@ {
        DataKind::Float
    } else if t == "double"@ || t == "DOUBLE"@ || t == "LREAL"@ {
        DataKind::Double
    } else if t == "state"@ || t == "STATE"@ || t == "AL_STATE"@ {
        DataKind::State
    } else if t == "string"@ || t == "STRING"@ || t == "VISIBLE_STRING"@ {
        DataKind::Text
    } else {
        DataKind::Raw
    }
}

fn data_kind(t: &str) -> (k: DataKind)
    ensures
        k == spec_data_kind(t@),
{
    if str_equals(t, "bool") || str_equals(t, "BOOL") || str_equals(t, "BOOLEAN") {
        DataKind::Bool
    } else if str_equals(t, "int8") || str_equals(t, "INT8") || str_equals(t, "SINT") {
        DataKind::Int8
    } else if str_equals(t, "uint8") || str_equals(t, "UINT8") || str_equals(t, "USINT")
        || str_equals(t, "BYTE") {
        DataKind::Uint8
    } else if str_equals(t, "int16") || str_equals(t, "INT16") || str_equals(t, "INT") {
        DataKind::Int16
    } else if str_equals(t, "uint16") || str_equals(t, "UINT16") || str_equals(t, "UINT")
        || str_equals(t, "WORD") {
        DataKind::Uint16
    } else if str_equals(t, "int32") || str_equals(t, "INT32") || str_equals(t, "DINT") {
        DataKind::Int32
    } else if str_equals(t, "uint32") || str_equals(t, "UINT32") || str_equals(t, "UDINT")
        || str_equals(t, "DWORD") {
        DataKind::Uint32
    } else if str_equals(t, "int64") || str_equals(t, "INT64") || str_equals(t, "LINT") {
        DataKind::Int64
    } else if str_equals(t, "uint64") || str_equals(t, "UINT64") || str_equals(t, "ULINT")
        || str_equals(t, "LWORD") {
        DataKind::Uint64
    } else if str_equals(t, "float") || str_equals(t, "FLOAT") || str_equals(t, "REAL") {
        DataKind::Float
    } else if str_equals(t, "double") || str_equals(t, "DOUBLE") || str_equals(t, "LREAL") {
        DataKind::Double
    } else if str_equals(t, "state") || str_equals(t, "STATE") || str_equals(t, "AL_STATE") {
        DataKind::State
    } else if str_equals(t, "string") || str_equals(t, "STRING") || str_equals(
        t,
        "VISIBLE_STRING",
    ) {
        DataKind::Text
    } else {
        DataKind::Raw
    }
}

/// End of a zero-terminated string that starts at `start`: the first zero
/// byte from there, or the end of the data.
pub open spec fn spec_text_end(d: Seq<u8>, start: nat) -> nat
    decreases d.len() - start,
{
    if start >= d.len() || d[start as int] == 0 {
        start
    } else {
        spec_text_end(d, start + 1)
    }
}

/// The value of type `kind` at bit offset `bo` of `d`, and how many bits it
/// takes (zero when the data ends too early).
pub open spec fn spec_convert_value(kind: DataKind, d: Seq<u8>, bo: nat) -> (PdoValueView, nat) {
    let bi = (bo / 8) as int;
    let br = bo % 8;
    let n = d.len() as int;
    match kind {
        DataKind::Bool => if bi >= n {
            (PdoValueView::Bool(false), 0)
        } else {
            (PdoValueView::Bool((d[bi] >> (br as u8)) & 1 == 1), 1)
        },
        DataKind::Int8 => if bi >= n {
            (PdoValueView::Int8(0), 0)
        } else {
            (PdoValueView::Int8(d[bi] as i8), 8)
        },
        DataKind::Uint8 => if bi >= n {
            (PdoValueView::Uint8(0), 0)
        } else {
            (PdoValueView::Uint8(d[bi]), 8)
        },
        DataKind::Int16 => if bi + 1 >= n {
            (PdoValueView::Int16(0), 0)
        } else {
            (PdoValueView::Int16(le16(d[bi], d[bi + 1]) as i16), 16)
        },
        DataKind::Uint16 => if bi + 1 >= n {
            (PdoValueView::Uint16(0), 0)
        } else {
            (PdoValueView::Uint16(le16(d[bi], d[bi + 1])), 16)
        },
        DataKind::Int32 => if bi + 3 >= n {
            (PdoValueView::Int32(0), 0)
        } else {
            (PdoValueView::Int32(le32(d[bi], d[bi + 1], d[bi + 2], d[bi + 3]) as i32), 32)
        },
        DataKind::Uint32 => if bi + 3 >= n {
            (PdoValueView::Uint32(0), 0)
        } else {
            (PdoValueView::Uint32(le32(d[bi], d[bi + 1], d[bi + 2], d[bi + 3])), 32)
        },
        DataKind::Int64 => if bi + 7 >= n {
            (PdoValueView::Int64(0), 0)
        } else {
            (PdoValueView::Int64(le64(d.subrange(bi, bi + 8)) as i64), 64)
        },
        DataKind::Uint64 => if bi + 7 >= n {
            (PdoValueView::Uint64(0), 0)
        } else {
            (PdoValueView::Uint64(le64(d.subrange(bi, bi + 8))), 64)
        },
        DataKind::Float => if bi + 3 >= n {
            (PdoValueView::Float(0), 0)
        } else {
            (PdoValueView::Float(le32(d[bi], d[bi + 1], d[bi + 2], d[bi + 3])), 32)
        },
        DataKind::Double => if bi + 7 >= n {
            (PdoValueView::Double(0), 0)
        } else {
            (PdoValueView::Double(le64(d.subrange(bi, bi + 8))), 64)
        },
        DataKind::State => if bi >= n {
            (PdoValueView::State(StateMachineState::Unknown(0)), 0)
        } else {
            (PdoValueView::State(spec_state_from_u8(d[bi])), 8)
        },
        DataKind::Text => {
            let end = spec_text_end(d, bi as nat) as int;
            (PdoValueView::Text(spec_utf8_lossy(d.subrange(bi, end))), ((end - bi + 1) * 8) as nat)
        },
        DataKind::Raw => {
            let end = if bi + 4 < n {
                bi + 4
            } else {
                n
            };
            let b = d.subrange(bi, end);
            (PdoValueView::Bytes(b), if b.len() == 0 {
                8
            } else {
                b.len() * 8
            })
        },
    }
}

/// The value at bit offset `bo`, typed by the template register of this
/// slave and sub-index if there is one, and otherwise read as a 16-bit or
/// 8-bit unsigned value on a byte boundary; and how many bits it takes.
pub open spec fn spec_extract(
    slaves: Seq<TemplateSlave>,
    slave_id: u16,
    pdo_index: u16,
    subindex: u8,
    d: Seq<u8>,
    bo: nat,
) -> (PdoValueView, nat) {
    match spec_find_register(slaves, slave_id, spec_reg_index(pdo_index), subindex) {
        Some(reg) => spec_convert_value(spec_data_kind(reg.data_type@), d, bo),
        None => {
            let bi = (bo / 8) as int;
            let n = d.len() as int;
            if bi >= n {
                (PdoValueView::Bytes(Seq::empty()), 0)
            } else {
                let remaining = n * 8 - bo;
                if remaining >= 16 && bo % 8 == 0 && bi + 2 <= n {
                    (PdoValueView::Uint16(le16(d[bi], d[bi + 1])), 16)
                } else if remaining >= 8 && bo % 8 == 0 {
                    (PdoValueView::Uint8(d[bi]), 8)
                } else {
                    (PdoValueView::Bytes(Seq::empty()), 0)
                }
            }
        },
    }
}

/// The bytes that hold `bits` bits starting at bit offset `bo`.
pub open spec fn spec_raw_bytes(d: Seq<u8>, bo: nat, bits: nat) -> Seq<u8> {
    let start = bo / 8;
    let total = (bits + 7) / 8;
    let end = if start + total < d.len() {
        start + total
    } else {
        d.len()
    };
    if bits == 0 || start >= d.len() {
        Seq::empty()
    } else {
        d.subrange(start as int, end as int)
    }
}

/// Entry number of a register in a PDO: the low byte of its index, then its
/// sub-index.
pub open spec fn spec_entry_key(reg_index: u16, subindex: u8) -> u16 {
    ((reg_index % 256) * 256 + subindex) as u16
}

/// The name fields of an entry taken from its template register, if any.
pub open spec fn spec_entry(
    reg: Option<TemplateRegister>,
    reg_index: u16,
    subindex: u8,
    raw: Seq<u8>,
    value: PdoValueView,
) -> RegisterValueView {
    RegisterValueView {
        index: reg_index,
        subindex,
        name: match reg {
            Some(r) => Some(r.name@),
            None => None,
        },
        description: match reg {
            Some(r) => Some(r.description@),
            None => None,
        },
        unit: match reg {
            Some(r) => opt_string_view(r.unit),
            None => None,
        },
        raw_bytes: raw,
        value,
        business_comment: match reg {
            Some(r) => opt_string_view(r.business_comment),
            None => None,
        },
    }
}

/// The entries that converting `d` gives, continuing from sub-index `sub`
/// and bit offset `bo` with the entries `acc` already made. Sub-indexes run
/// up to 255; the conversion stops when the data is used up, and also at the
/// first sub-index above 32 that yields nothing.
pub open spec fn spec_convert_from(
    slaves: Seq<TemplateSlave>,
    slave_id: u16,
    pdo_index: u16,
    d: Seq<u8>,
    sub: nat,
    bo: nat,
    acc: Map<u16, RegisterValueView>,
) -> Map<u16, RegisterValueView>
    decreases 256 - sub,
{
    if sub > 255 || sub == 0 || bo / 8 >= d.len() {
        acc
    } else {
        let (value, bits) = spec_extract(slaves, slave_id, pdo_index, sub as u8, d, bo);
        let reg_index = spec_reg_index(pdo_index);
        if bits == 0 {
            if sub > 32 {
                acc
            } else {
                spec_convert_from(slaves, slave_id, pdo_index, d, sub + 1, bo, acc)
            }
        } else {
            let entry = spec_entry(
                spec_find_register(slaves, slave_id, reg_index, sub as u8),
                reg_index,
                sub as u8,
                spec_raw_bytes(d, bo, bits),
                value,
            );
            spec_convert_from(
                slaves,
                slave_id,
                pdo_index,
                d,
                sub + 1,
                bo + bits,
                acc.insert(spec_entry_key(reg_index, sub as u8), entry),
            )
        }
    }
}

/// The process data that converting `d` gives.
pub open spec fn spec_convert_pdo(slaves: Seq<TemplateSlave>, slave_id: u16, pdo_index: u16, d: Seq<u8>) -> PdoDataView {
    PdoDataView {
        slave_id,
        pdo_index,
        entries: spec_convert_from(slaves, slave_id, pdo_index, d, 1, 0, Map::empty()),
    }
}

/// The application-layer status entry of a datagram's data.
pub open spec fn spec_al_status_entry(d: Seq<u8>) -> RegisterValueView {
    RegisterValueView {
        index: AL_STATUS_REG,
        subindex: 0,
        name: Some("AL Status"@),
        description: Some("Application Layer State Machine Status"@),
        unit: None,
        raw_bytes: d.subrange(0, 2),
        value: PdoValueView::State(spec_state_from_u8(d[0])),
        business_comment: None,
    }
}

/// A datagram after its process data were converted and, when it reads the
/// AL status register, the decoded state added.
pub open spec fn spec_enhance(slaves: Seq<TemplateSlave>, dg: ParsedDatagramView) -> ParsedDatagramView {
    let converted = match dg.pdo {
        Some(p) => Some(spec_convert_pdo(slaves, p.slave_id, p.pdo_index, dg.data)),
        None => None,
    };
    if dg.header.register_offset == AL_STATUS_REG && dg.data.len() >= 2 {
        let base = match converted {
            Some(p) => p,
            None => PdoDataView {
                slave_id: dg.header.slave_address,
                pdo_index: AL_STATUS_REG,
                entries: Map::empty(),
            },
        };
        ParsedDatagramView {
            pdo: Some(
                PdoDataView {
                    entries: base.entries.insert(AL_STATUS_REG, spec_al_status_entry(dg.data)),
                    ..base
                },
            ),
            ..dg
        }
    } else {
        ParsedDatagramView { pdo: converted, ..dg }
    }
}

/// A datagram can be enhanced: its PDO index maps to a register index and its
/// data's bit offsets fit in a `usize`.
pub open spec fn enhanceable(dg: ParsedDatagramView) -> bool {
    &&& dg.data.len() <= (usize::MAX - 64) / 8
    &&& dg.pdo matches Some(p) ==> pdo_index_in_range(p.pdo_index)
}

/// The text of a value; nothing for floating-point values, whose rendering is
/// left to the caller.
pub open spec fn spec_format_value(v: PdoValueView) -> Option<Seq<char>> {
    match v {
        PdoValueView::Bool(b) => Some(if b {
            "true"@
        } else {
            "false"@
        }),
        PdoValueView::Int8(x) => Some(spec_signed_decimal(x as int)),
        PdoValueView::Int16(x) => Some(spec_signed_decimal(x as int)),
        PdoValueView::Int32(x) => Some(spec_signed_decimal(x as int)),
        PdoValueView::Int64(x) => Some(spec_signed_decimal(x as int)),
        PdoValueView::Uint8(x) => Some(spec_decimal(x as nat)),
        PdoValueView::Uint16(x) => Some(spec_decimal(x as nat)),
        PdoValueView::Uint32(x) => Some(spec_decimal(x as nat)),
        PdoValueView::Uint64(x) => Some(spec_decimal(x as nat)),
        PdoValueView::Float(_) => None,
        PdoValueView::Double(_) => None,
        PdoValueView::Bytes(b) => Some(spec_hex_bytes(b)),
        PdoValueView::Text(s) => Some(s),
        PdoValueView::State(s) => Some(spec_state_name(s)),
    }
}

/// Converts process data into register values, using a mapping template.
pub struct PdoConverter {
    template: Option<ParseTemplate>,
    slave_register_map: HashMap<u64, (usize, usize)>,
    slave_device_map: HashMap<u16, usize>,
}

impl PdoConverter {
    /// The template in use, if any.
    pub closed spec fn spec_template(&self) -> Option<ParseTemplate> {
        self.template
    }

    /// The slaves of the template in use (none without a template).
    pub open spec fn slaves(&self) -> Seq<TemplateSlave> {
        template_slaves(self.spec_template())
    }

    #[verifier::type_invariant]
    closed spec fn indexed(&self) -> bool {
        let slaves = template_slaves(self.template);
        &&& self.slave_register_map@ == spec_register_index(slaves, slaves.len(), 0)
        &&& self.slave_device_map@ == spec_device_index(slaves, slaves.len())
    }
}


fn register_key_of(slave_id: u16, index: u16, subindex: u8) -> (k: u64)
    ensures
        k == register_key(slave_id, index, subindex),
{
    slave_id as u64 * 0x100_0000 + index as u64 * 0x100 + subindex as u64
}

/// Indexes the registers and slaves of a template by key, later entries
/// replacing earlier ones.
fn build_indexes(template: &ParseTemplate) -> (r: (HashMap<u64, (usize, usize)>, HashMap<u16, usize>))
    ensures
        r.0@ == spec_register_index(template.slaves@, template.slaves@.len(), 0),
        r.1@ == spec_device_index(template.slaves@, template.slaves@.len()),
{
    let ghost slaves = template.slaves@;
    let mut registers: HashMap<u64, (usize, usize)> = HashMap::new();
    let mut devices: HashMap<u16, usize> = HashMap::new();
    let mut i: usize = 0;
    assert(registers@ == spec_register_index(slaves, 0, 0));
    while i < template.slaves.len()
        invariant
            slaves == template.slaves@,
            i <= slaves.len(),
            registers@ == spec_register_index(slaves, i as nat, 0),
            devices@ == spec_device_index(slaves, i as nat),
        decreases slaves.len() - i,
    {
        let slave = &template.slaves[i];
        devices.insert(slave.slave_id, i);
        let mut j: usize = 0;
        while j < slave.registers.len()
            invariant
                slaves == template.slaves@,
                i < slaves.len(),
                *slave == slaves[i as int],
                j <= slave.registers@.len(),
                registers@ == spec_register_index(slaves, i as nat, j as nat),
            decreases slave.registers@.len() - j,
        {
            let reg = &slave.registers[j];
            registers.insert(register_key_of(slave.slave_id, reg.index, reg.subindex), (i, j));
            j = j + 1;
        }
        i = i + 1;
    }
    (registers, devices)
}

fn clone_opt_string(o: &Option<String>) -> (r: Option<String>)
    ensures
        opt_string_view(r) == opt_string_view(*o),
{
    match o {
        Some(s) => Some(s.clone()),
        None => None,
    }
}

impl PdoConverter {
    /// A converter without a template.
    pub fn new() -> (c: Self)
        ensures
            c.spec_template() is None,
    {
        PdoConverter {
            template: None,
            slave_register_map: HashMap::new(),
            slave_device_map: HashMap::new(),
        }
    }

    /// Puts a parsed template in use, replacing any earlier one.
    pub fn load_parsed_template(&mut self, template: ParseTemplate)
        ensures
            final(self).spec_template() == Some(template),
    {
        let (registers, devices) = build_indexes(&template);
        *self = PdoConverter {
            template: Some(template),
            slave_register_map: registers,
            slave_device_map: devices,
        };
    }

    /// The template in use, if any.
    pub fn get_template(&self) -> (t: Option<&ParseTemplate>)
        ensures
            match self.spec_template() {
                Some(x) => t == Some(&x),
                None => t is None,
            },
    {
        self.template.as_ref()
    }

    /// The device name that the template gives a slave address.
    pub fn get_slave_device_name(&self, slave_id: u16) -> (name: Option<&str>)
        ensures
            match spec_find_device(self.slaves(), slave_id) {
                Some(d) => name is Some && name->Some_0@ == d.device_name@,
                None => name is None,
            },
    {
        proof {
            use_type_invariant(self);
        }
        match self.slave_device_map.get(&slave_id) {
            Some(pos) => {
                match &self.template {
                    Some(t) => {
                        let ghost slaves = t.slaves@;
                        proof {
                            assert(t.slaves.len() == slaves.len());
                            lemma_device_index_in_bounds(slaves, slaves.len());
                        }
                        Some(t.slaves[*pos].device_name.as_str())
                    },
                    None => None,
                }
            },
            None => None,
        }
    }

    /// The template register of a slave at an index and sub-index, if any.
    fn lookup_register(&self, slave_id: u16, index: u16, subindex: u8) -> (r: Option<&TemplateRegister>)
        ensures
            match spec_find_register(self.slaves(), slave_id, index, subindex) {
                Some(reg) => r == Some(&reg),
                None => r is None,
            },
    {
        proof {
            use_type_invariant(self);
        }
        match self.slave_register_map.get(&register_key_of(slave_id, index, subindex)) {
            Some(pos) => {
                match &self.template {
                    Some(t) => {
                        let ghost slaves = t.slaves@;
                        proof {
                            assert(t.slaves.len() == slaves.len());
                            lemma_register_index_in_bounds(slaves, slaves.len(), 0);
                        }
                        Some(&t.slaves[pos.0].registers[pos.1])
                    },
                    None => None,
                }
            },
            None => None,
        }
    }
}

proof fn lemma_device_index_in_bounds(slaves: Seq<TemplateSlave>, i: nat)
    requires
        i <= slaves.len(),
        slaves.len() <= usize::MAX,
    ensures
        forall|k: u16| #[trigger]
            spec_device_index(slaves, i).contains_key(k) ==> spec_device_index(slaves, i)[k] < i,
    decreases i,
{
    if i > 0 {
        lemma_device_index_in_bounds(slaves, (i - 1) as nat);
        let prev = spec_device_index(slaves, (i - 1) as nat);
        assert forall|k: u16| #[trigger]
            spec_device_index(slaves, i).contains_key(k) implies spec_device_index(slaves, i)[k]
            < i by {
            if k != slaves[i - 1].slave_id {
                assert(prev.contains_key(k));
            }
        }
    }
}

proof fn lemma_register_index_in_bounds(slaves: Seq<TemplateSlave>, i: nat, j: nat)
    requires
        i <= slaves.len(),
        slaves.len() <= usize::MAX,
        i < slaves.len() ==> j <= slaves[i as int].registers@.len(),
    ensures
        forall|k: u64| #[trigger]
            spec_register_index(slaves, i, j).contains_key(k) ==> {
                let p = spec_register_index(slaves, i, j)[k];
                p.0 < slaves.len() && p.1 < slaves[p.0 as int].registers@.len()
            },
    decreases i, j,
{
    if j == 0 {
        if i > 0 {
            lemma_register_index_in_bounds(slaves, (i - 1) as nat, slaves[i - 1].registers@.len());
            assert(spec_register_index(slaves, i, j) == spec_register_index(
                slaves,
                (i - 1) as nat,
                slaves[i - 1].registers@.len(),
            ));
        } else {
            assert(spec_register_index(slaves, i, j) =~= Map::empty());
        }
    } else if i < slaves.len() {
        lemma_register_index_in_bounds(slaves, i, (j - 1) as nat);
        let prev = spec_register_index(slaves, i, (j - 1) as nat);
        assert(slaves[i as int].registers.len() == slaves[i as int].registers@.len());
        let reg = slaves[i as int].registers@[j - 1];
        let nk = register_key(slaves[i as int].slave_id, reg.index, reg.subindex);
        assert forall|k: u64| #[trigger]
            spec_register_index(slaves, i, j).contains_key(k) implies {
                let p = spec_register_index(slaves, i, j)[k];
                p.0 < slaves.len() && p.1 < slaves[p.0 as int].registers@.len()
            } by {
            if k != nk {
                assert(prev.contains_key(k));
            }
        }
    } else {
        assert(spec_register_index(slaves, i, j) =~= Map::empty());
    }
}


fn le16_at(d: &[u8], i: usize) -> (v: u16)
    requires
        i + 1 < d@.len(),
    ensures
        v == le16(d@[i as int], d@[i + 1]),
{
    d[i] as u16 + 256 * (d[i + 1] as u16)
}

fn le32_at(d: &[u8], i: usize) -> (v: u32)
    requires
        i + 3 < d@.len(),
    ensures
        v == le32(d@[i as int], d@[i + 1], d@[i + 2], d@[i + 3]),
{
    d[i] as u32 + 256 * (d[i + 1] as u32) + 65536 * (d[i + 2] as u32) + 16777216 * (d[i
        + 3] as u32)
}

fn le64_at(d: &[u8], i: usize) -> (v: u64)
    requires
        i + 7 < d@.len(),
    ensures
        v == le64(d@.subrange(i as int, i + 8)),
{
    let n = d.len();
    let lo = le32_at(d, i);
    let hi = le32_at(d, i + 4);
    let ghost s = d@.subrange(i as int, i + 8);
    assert(lo == le32(s[0], s[1], s[2], s[3]));
    assert(hi == le32(s[4], s[5], s[6], s[7]));
    lo as u64 + 4294967296 * (hi as u64)
}

/// Converts the value of a template register's type at a bit offset; gives
/// the value and how many bits it takes. Fixed-size types past the end give a
/// zero value taking no bits; strings and raw bytes start at most at the end
/// of the data (there they are empty).
fn convert_with_template(kind: DataKind, raw_data: &[u8], bit_offset: usize) -> (r: (PdoValueType, usize))
    requires
        kind == DataKind::Text || kind == DataKind::Raw ==> bit_offset / 8 <= raw_data@.len(),
        raw_data@.len() <= (usize::MAX - 64) / 8,
    ensures
        (r.0@, r.1 as nat) == spec_convert_value(kind, raw_data@, bit_offset as nat),
{
    let byte_idx = bit_offset / 8;
    let bit_remain = bit_offset % 8;
    let n = raw_data.len();
    match kind {
        DataKind::Bool => {
            if byte_idx >= n {
                return (PdoValueType::Bool(false), 0);
            }
            let val = (raw_data[byte_idx] >> (bit_remain as u8)) & 0x01 == 1;
            (PdoValueType::Bool(val), 1)
        },
        DataKind::Int8 => {
            if byte_idx >= n {
                return (PdoValueType::Int8(0), 0);
            }
            (PdoValueType::Int8(raw_data[byte_idx] as i8), 8)
        },
        DataKind::Uint8 => {
            if byte_idx >= n {
                return (PdoValueType::Uint8(0), 0);
            }
            (PdoValueType::Uint8(raw_data[byte_idx]), 8)
        },
        DataKind::Int16 => {
            if byte_idx + 1 >= n {
                return (PdoValueType::Int16(0), 0);
            }
            (PdoValueType::Int16(le16_at(raw_data, byte_idx) as i16), 16)
        },
        DataKind::Uint16 => {
            if byte_idx + 1 >= n {
                return (PdoValueType::Uint16(0), 0);
            }
            (PdoValueType::Uint16(le16_at(raw_data, byte_idx)), 16)
        },
        DataKind::Int32 => {
            if byte_idx + 3 >= n {
                return (PdoValueType::Int32(0), 0);
            }
            (PdoValueType::Int32(le32_at(raw_data, byte_idx) as i32), 32)
        },
        DataKind::Uint32 => {
            if byte_idx + 3 >= n {
                return (PdoValueType::Uint32(0), 0);
            }
            (PdoValueType::Uint32(le32_at(raw_data, byte_idx)), 32)
        },
        DataKind::Int64 => {
            if byte_idx + 7 >= n {
                return (PdoValueType::Int64(0), 0);
            }
            (PdoValueType::Int64(le64_at(raw_data, byte_idx) as i64), 64)
        },
        DataKind::Uint64 => {
            if byte_idx + 7 >= n {
                return (PdoValueType::Uint64(0), 0);
            }
            (PdoValueType::Uint64(le64_at(raw_data, byte_idx)), 64)
        },
        DataKind::Float => {
            if byte_idx + 3 >= n {
                return (PdoValueType::Float(0), 0);
            }
            (PdoValueType::Float(le32_at(raw_data, byte_idx)), 32)
        },
        DataKind::Double => {
            if byte_idx + 7 >= n {
                return (PdoValueType::Double(0), 0);
            }
            (PdoValueType::Double(le64_at(raw_data, byte_idx)), 64)
        },
        DataKind::State => {
            if byte_idx >= n {
                return (PdoValueType::State(StateMachineState::Unknown(0)), 0);
            }
            (PdoValueType::State(StateMachineState::from_u8(raw_data[byte_idx])), 8)
        },
        DataKind::Text => {
            let start = byte_idx;
            let mut end = start;
            while end < n && raw_data[end] != 0
                invariant
                    start <= end <= n,
                    n == raw_data@.len(),
                    spec_text_end(raw_data@, start as nat) == spec_text_end(raw_data@, end as nat),
                decreases n - end,
            {
                end = end + 1;
            }
            let s = utf8_lossy(slice_subrange(raw_data, start, end));
            let consumed = ((end - start) + 1) * 8;
            let bits = if consumed > 8 {
                consumed
            } else {
                8
            };
            (PdoValueType::String(s), bits)
        },
        DataKind::Raw => {
            let end = if byte_idx + 4 < n {
                byte_idx + 4
            } else {
                n
            };
            let b = slice_to_vec(slice_subrange(raw_data, byte_idx, end));
            let bits = b.len() * 8;
            (PdoValueType::Bytes(b), if bits == 0 {
                8
            } else {
                bits
            })
        },
    }
}


proof fn lemma_text_end_bounds(d: Seq<u8>, start: nat)
    requires
        start <= d.len(),
    ensures
        start <= spec_text_end(d, start) <= d.len(),
    decreases d.len() - start,
{
    if start < d.len() && d[start as int] != 0 {
        lemma_text_end_bounds(d, start + 1);
    }
}

/// A value read at a bit offset inside the data ends at most 15 bits past the
/// end of the data.
proof fn lemma_convert_value_bits(kind: DataKind, d: Seq<u8>, bo: nat)
    requires
        bo / 8 < d.len(),
    ensures
        bo + spec_convert_value(kind, d, bo).1 <= 8 * d.len() + 15,
{
    if kind == DataKind::Text {
        lemma_text_end_bounds(d, bo / 8);
    }
}

proof fn lemma_extract_bits(
    slaves: Seq<TemplateSlave>,
    slave_id: u16,
    pdo_index: u16,
    subindex: u8,
    d: Seq<u8>,
    bo: nat,
)
    requires
        bo / 8 < d.len(),
    ensures
        bo + spec_extract(slaves, slave_id, pdo_index, subindex, d, bo).1 <= 8 * d.len() + 15,
{
    match spec_find_register(slaves, slave_id, spec_reg_index(pdo_index), subindex) {
        Some(reg) => lemma_convert_value_bits(spec_data_kind(reg.data_type@), d, bo),
        None => {},
    }
}

impl PdoConverter {
    /// The value of entry `subindex` at a bit offset and how many bits it
    /// takes, with the register index of the PDO.
    fn extract_value_at(
        &self,
        slave_id: u16,
        pdo_index: u16,
        subindex: u8,
        raw_data: &[u8],
        bit_offset: usize,
    ) -> (r: (PdoValueType, usize, u16))
        requires
            pdo_index_in_range(pdo_index),
            bit_offset / 8 < raw_data@.len(),
            raw_data@.len() <= (usize::MAX - 64) / 8,
        ensures
            (r.0@, r.1 as nat) == spec_extract(
                self.slaves(),
                slave_id,
                pdo_index,
                subindex,
                raw_data@,
                bit_offset as nat,
            ),
            r.2 == spec_reg_index(pdo_index),
    {
        let reg_index: u16 = if pdo_index >= 0x1600 {
            0x7000 + (pdo_index - 0x1600)
        } else {
            0x7000
        };
        match self.lookup_register(slave_id, reg_index, subindex) {
            Some(template) => {
                let (val, bits) = convert_with_template(
                    data_kind(template.data_type.as_str()),
                    raw_data,
                    bit_offset,
                );
                return (val, bits, reg_index);
            },
            None => {},
        }
        if bit_offset / 8 >= raw_data.len() {
            return (PdoValueType::Bytes(Vec::new()), 0, reg_index);
        }
        let remaining = raw_data.len() * 8 - bit_offset;
        if remaining >= 16 && bit_offset % 8 == 0 {
            let byte_idx = bit_offset / 8;
            if byte_idx + 2 <= raw_data.len() {
                let v = le16_at(raw_data, byte_idx);
                return (PdoValueType::Uint16(v), 16, reg_index);
            }
        }
        if remaining >= 8 && bit_offset % 8 == 0 {
            let byte_idx = bit_offset / 8;
            return (PdoValueType::Uint8(raw_data[byte_idx]), 8, reg_index);
        }
        let empty: Vec<u8> = Vec::new();
        assert(empty@ =~= Seq::<u8>::empty());
        (PdoValueType::Bytes(empty), 0, reg_index)
    }
}

/// The bytes that hold `consumed_bits` bits starting at `bit_offset`.
fn extract_raw_bytes(raw_data: &[u8], bit_offset: usize, consumed_bits: usize) -> (b: Vec<u8>)
    requires
        consumed_bits <= usize::MAX - 7,
    ensures
        b@ == spec_raw_bytes(raw_data@, bit_offset as nat, consumed_bits as nat),
{
    if consumed_bits == 0 {
        return Vec::new();
    }
    let start_byte = bit_offset / 8;
    let total_bytes = (consumed_bits + 7) / 8;
    if start_byte >= raw_data.len() {
        return Vec::new();
    }
    let end_byte = if total_bytes < raw_data.len() - start_byte {
        start_byte + total_bytes
    } else {
        raw_data.len()
    };
    slice_to_vec(slice_subrange(raw_data, start_byte, end_byte))
}


impl PdoConverter {
    /// Converts the raw process data of a slave into register values: entry
    /// after entry, by sub-index from 1, each typed by its template register
    /// when the template has one.
    pub fn convert_pdo_data(&self, slave_id: u16, pdo_index: u16, raw_data: &[u8]) -> (p: PdoData)
        requires
            pdo_index_in_range(pdo_index),
            raw_data@.len() <= (usize::MAX - 64) / 8,
        ensures
            p@ == spec_convert_pdo(self.slaves(), slave_id, pdo_index, raw_data@),
    {
        let ghost slaves = self.slaves();
        let ghost d = raw_data@;
        let ghost target = spec_convert_from(slaves, slave_id, pdo_index, d, 1, 0, Map::empty());
        let mut entries: HashMap<u16, RegisterValue> = HashMap::new();
        let mut bit_offset: usize = 0;
        let mut sub: u16 = 1;
        assert(entries_view(entries@) =~= Map::<u16, RegisterValueView>::empty());
        while sub <= 255
            invariant
                1 <= sub <= 256,
                d == raw_data@,
                slaves == self.slaves(),
                pdo_index_in_range(pdo_index),
                raw_data@.len() <= (usize::MAX - 64) / 8,
                bit_offset <= 8 * d.len() + 15,
                spec_convert_from(
                    slaves,
                    slave_id,
                    pdo_index,
                    d,
                    sub as nat,
                    bit_offset as nat,
                    entries_view(entries@),
                ) == target,
            ensures
                entries_view(entries@) == target,
            decreases 256 - sub,
        {
            if bit_offset / 8 >= raw_data.len() {
                break;
            }
            let (value, consumed_bits, reg_index) = self.extract_value_at(
                slave_id,
                pdo_index,
                sub as u8,
                raw_data,
                bit_offset,
            );
            proof {
                lemma_extract_bits(slaves, slave_id, pdo_index, sub as u8, d, bit_offset as nat);
            }
            let key: u16 = (reg_index % 256) * 256 + sub;
            if consumed_bits == 0 {
                if sub > 32 {
                    break;
                }
                sub = sub + 1;
                continue;
            }
            let reg_template = self.lookup_register(slave_id, reg_index, sub as u8);
            let name = match reg_template {
                Some(r) => Some(r.name.clone()),
                None => None,
            };
            let description = match reg_template {
                Some(r) => Some(r.description.clone()),
                None => None,
            };
            let unit = match reg_template {
                Some(r) => clone_opt_string(&r.unit),
                None => None,
            };
            let business_comment = match reg_template {
                Some(r) => clone_opt_string(&r.business_comment),
                None => None,
            };
            let raw_bytes = extract_raw_bytes(raw_data, bit_offset, consumed_bits);
            let rv = RegisterValue {
                index: reg_index,
                subindex: sub as u8,
                name,
                description,
                unit,
                raw_bytes,
                value,
                business_comment,
            };
            let ghost before = entries@;
            proof {
                assert(key == spec_entry_key(reg_index, sub as u8));
                assert(rv@ =~= spec_entry(
                    spec_find_register(slaves, slave_id, reg_index, sub as u8),
                    reg_index,
                    sub as u8,
                    spec_raw_bytes(d, bit_offset as nat, consumed_bits as nat),
                    value@,
                ));
            }
            entries.insert(key, rv);
            proof {
                assert(entries_view(entries@) =~= entries_view(before).insert(key, rv@));
            }
            bit_offset = bit_offset + consumed_bits;
            sub = sub + 1;
        }
        PdoData { slave_id, pdo_index, entries }
    }
}


impl PdoConverter {
    /// The text of a value: "true"/"false", decimal integers, lower-case
    /// hexadecimal bytes, the string itself, or the state's name. Nothing for
    /// `Float` and `Double`, whose rendering is floating-point formatting.
    pub fn format_value(value: &PdoValueType) -> (s: Option<String>)
        ensures
            match spec_format_value(value@) {
                Some(t) => s is Some && s->Some_0@ == t,
                None => s is None,
            },
    {
        match value {
            PdoValueType::Bool(v) => Some(
                if *v {
                    owned("true")
                } else {
                    owned("false")
                },
            ),
            PdoValueType::Int8(v) => Some(i64_to_decimal(*v as i64)),
            PdoValueType::Int16(v) => Some(i64_to_decimal(*v as i64)),
            PdoValueType::Int32(v) => Some(i64_to_decimal(*v as i64)),
            PdoValueType::Int64(v) => Some(i64_to_decimal(*v)),
            PdoValueType::Uint8(v) => Some(u64_to_decimal(*v as u64)),
            PdoValueType::Uint16(v) => Some(u64_to_decimal(*v as u64)),
            PdoValueType::Uint32(v) => Some(u64_to_decimal(*v as u64)),
            PdoValueType::Uint64(v) => Some(u64_to_decimal(*v)),
            PdoValueType::Float(_) => None,
            PdoValueType::Double(_) => None,
            PdoValueType::Bytes(b) => Some(hex_encode(b.as_slice())),
            PdoValueType::String(t) => Some(t.clone()),
            PdoValueType::State(st) => Some(owned(st.to_str())),
        }
    }

    /// Converts the process data of a datagram, and when the datagram reads
    /// the AL status register, adds the decoded state as an entry.
    pub fn enhance_datagram(&self, dg: &mut ParsedDatagram)
        requires
            enhanceable(old(dg)@),
        ensures
            final(dg)@ == spec_enhance(self.slaves(), old(dg)@),
    {
        let ghost start = dg@;
        match dg.pdo.take() {
            Some(pdo) => {
                let converted = self.convert_pdo_data(pdo.slave_id, pdo.pdo_index, dg.data.as_slice());
                dg.pdo = Some(converted);
            },
            None => {},
        }
        if dg.header.register_offset == AL_STATUS_REG && dg.data.len() >= 2 {
            let state = StateMachineState::from_u8(dg.data[0]);
            if dg.pdo.is_none() {
                dg.pdo = Some(
                    PdoData {
                        slave_id: dg.header.slave_address,
                        pdo_index: AL_STATUS_REG,
                        entries: HashMap::new(),
                    },
                );
            }
            let raw_bytes = slice_to_vec(slice_subrange(dg.data.as_slice(), 0, 2));
            let reg = RegisterValue {
                index: AL_STATUS_REG,
                subindex: 0,
                name: Some(owned("AL Status")),
                description: Some(owned("Application Layer State Machine Status")),
                unit: None,
                raw_bytes,
                value: PdoValueType::State(state),
                business_comment: None,
            };
            proof {
                assert(reg@ =~= spec_al_status_entry(start.data));
            }
            match dg.pdo.take() {
                Some(mut pdo) => {
                    let ghost before = pdo.entries@;
                    pdo.entries.insert(AL_STATUS_REG, reg);
                    proof {
                        assert(entries_view(pdo.entries@) =~= entries_view(before).insert(
                            AL_STATUS_REG,
                            spec_al_status_entry(start.data),
                        ));
                    }
                    dg.pdo = Some(pdo);
                },
                None => {},
            }
        }
        proof {
            let target = spec_enhance(self.slaves(), start);
            if dg.pdo is Some && target.pdo is Some {
                assert(dg@.pdo->Some_0.entries =~= target.pdo->Some_0.entries);
            }
            assert(dg@ =~= target);
        }
    }
}

impl Default for PdoConverter {
    /// A converter without a template.
    fn default() -> (c: Self)
        ensures
            c.spec_template() is None,
    {
        PdoConverter::new()
    }
}

} // verus!
