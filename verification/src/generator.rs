//! Generation of sample data: synthetic EtherCAT frames in which each slave
//! exchanges position, velocity and I/O words, with AL faults injected on
//! demand; and example register templates.

use crate::text::{concat, owned, spec_decimal, u64_to_decimal};
use crate::{ParseTemplate, TemplateRegister, TemplateSlave, AL_ERROR_CODE_REG};
use rand::rngs::ThreadRng;
use rand::Rng;
use vstd::prelude::*;

verus! {

#[verifier::external_type_specification]
#[verifier::external_body]
pub struct ExThreadRng(ThreadRng);

/// Little-endian bytes of a 16-bit value.
pub open spec fn u16_le(v: u16) -> Seq<u8> {
    seq![(v % 256) as u8, (v / 256) as u8]
}

/// Little-endian bytes of a 32-bit value.
pub open spec fn u32_le(v: u32) -> Seq<u8> {
    seq![(v % 256) as u8, ((v / 256) % 256) as u8, ((v / 65536) % 256) as u8, (v / 16777216) as u8]
}

/// Remainder of a division truncated toward zero (Rust's `%`).
pub open spec fn trunc_rem(a: int, b: int) -> int {
    if a >= 0 {
        a % b
    } else {
        -((-a) % b)
    }
}

/// Position word that a slave reports in a frame.
pub open spec fn spec_position(slave_id: u16, frame_idx: u32) -> int {
    (frame_idx as i32) * 100 + (slave_id as i32) * 50
}

/// Velocity word that a slave reports in a frame.
pub open spec fn spec_velocity(slave_id: u16, frame_idx: u32) -> int {
    trunc_rem((frame_idx as i16) as int, 1000) + (slave_id as i16) * 10
}

/// The position and velocity words of a slave in a frame fit their types.
pub open spec fn datagram_values_fit(slave_id: u16, frame_idx: u32) -> bool {
    &&& i32::MIN <= (frame_idx as i32) * 100 <= i32::MAX
    &&& i32::MIN <= (slave_id as i32) * 50 <= i32::MAX
    &&& i32::MIN <= spec_position(slave_id, frame_idx) <= i32::MAX
    &&& i16::MIN <= (slave_id as i16) * 10 <= i16::MAX
    &&& i16::MIN <= spec_velocity(slave_id, frame_idx) <= i16::MAX
}

/// The bytes of one generated logical read/write datagram: the AL error
/// register with `fault`'s code when a fault is given, else register 0x0010
/// with position, velocity and digital-input words (eight bytes); then the
/// working counter. The announced data length is that of the words written.
pub open spec fn spec_datagram_bytes(
    slave_id: u16,
    frame_idx: u32,
    dg_idx: u8,
    fault: Option<u32>,
    is_last: bool,
    wc: u16,
) -> Seq<u8> {
    let reg: u16 = if fault is Some {
        AL_ERROR_CODE_REG
    } else {
        0x0010
    };
    let payload_len: u16 = if fault is Some {
        4
    } else {
        8
    };
    let len_flags: u16 = if is_last {
        payload_len
    } else {
        (payload_len + 0x8000) as u16
    };
    let irq: u16 = if is_last {
        1
    } else {
        0
    };
    let payload = match fault {
        Some(code) => u32_le(code),
        None => u32_le(spec_position(slave_id, frame_idx) as u32) + u16_le(
            spec_velocity(slave_id, frame_idx) as u16,
        ) + u16_le(0xFF00u16 | slave_id),
    };
    seq![0x0Cu8, dg_idx] + u16_le(slave_id) + u16_le(reg) + u16_le(len_flags) + u16_le(irq)
        + payload + u16_le(wc)
}

fn push_u16_le(v: &mut Vec<u8>, x: u16)
    ensures
        final(v)@ == old(v)@ + u16_le(x),
{
    v.push((x % 256) as u8);
    v.push((x / 256) as u8);
    assert(final(v)@ =~= old(v)@ + u16_le(x));
}

fn push_u32_le(v: &mut Vec<u8>, x: u32)
    ensures
        final(v)@ == old(v)@ + u32_le(x),
{
    v.push((x % 256) as u8);
    v.push(((x / 256) % 256) as u8);
    v.push(((x / 65536) % 256) as u8);
    v.push((x / 16777216) as u8);
    assert(final(v)@ =~= old(v)@ + u32_le(x));
}

/// Whether the position and velocity words of a slave in a frame fit their
/// types.
pub fn values_fit(slave_id: u16, frame_idx: u32) -> (r: bool)
    ensures
        r == datagram_values_fit(slave_id, frame_idx),
{
    let f = frame_idx as i32 as i64 * 100;
    let s = slave_id as i32 as i64 * 50;
    let pos = f + s;
    let sv = slave_id as i16 as i64 * 10;
    let fv = frame_idx as i16 as i64;
    let rem = if fv >= 0 {
        fv % 1000
    } else {
        -((-fv) % 1000)
    };
    let vel = rem + sv;
    i32::MIN as i64 <= f && f <= i32::MAX as i64 && i32::MIN as i64 <= s && s <= i32::MAX as i64
        && i32::MIN as i64 <= pos && pos <= i32::MAX as i64 && i16::MIN as i64 <= sv && sv
        <= i16::MAX as i64 && i16::MIN as i64 <= vel && vel <= i16::MAX as i64
}

/// The bytes of one generated datagram with a given working counter.
pub fn datagram_bytes(
    slave_id: u16,
    frame_idx: u32,
    dg_idx: u8,
    fault: Option<u32>,
    is_last: bool,
    wc: u16,
) -> (dg: Vec<u8>)
    requires
        fault is None ==> datagram_values_fit(slave_id, frame_idx),
    ensures
        dg@ == spec_datagram_bytes(slave_id, frame_idx, dg_idx, fault, is_last, wc),
{
    let mut dg: Vec<u8> = Vec::new();
    dg.push(0x0C);
    dg.push(dg_idx);
    push_u16_le(&mut dg, slave_id);
    let reg_offset: u16 = if fault.is_some() {
        AL_ERROR_CODE_REG
    } else {
        0x0010
    };
    push_u16_le(&mut dg, reg_offset);
    let payload_len: u16 = if fault.is_some() {
        4
    } else {
        8
    };
    let len_flags: u16 = if is_last {
        payload_len
    } else {
        payload_len + 0x8000
    };
    push_u16_le(&mut dg, len_flags);
    let irq: u16 = if is_last {
        0x0001
    } else {
        0x0000
    };
    push_u16_le(&mut dg, irq);
    let ghost head = dg@;
    match fault {
        Some(code) => {
            push_u32_le(&mut dg, code);
        },
        None => {
            let pos: i32 = (frame_idx as i32) * 100 + (slave_id as i32) * 50;
            push_u32_le(&mut dg, pos as u32);
            let vel: i16 = ((frame_idx as i16) % 1000) + (slave_id as i16) * 10;
            proof {
                assert(vel == spec_velocity(slave_id, frame_idx));
            }
            push_u16_le(&mut dg, vel as u16);
            let di: u16 = 0xFF00 | slave_id;
            push_u16_le(&mut dg, di);
        },
    }
    push_u16_le(&mut dg, wc);
    assert(dg@ =~= spec_datagram_bytes(slave_id, frame_idx, dg_idx, fault, is_last, wc));
    dg
}


/// Whether datagram `d` (counted from 0) of a generated frame carries an
/// injected fault.
pub open spec fn fault_injected(slaves: u16, frame_idx: u32, include_faults: bool, d: int) -> bool {
    include_faults && frame_idx % 37 == 23 && d == (frame_idx % (slaves as u32)) as int
}

/// The fault code that an injected fault of a frame carries.
pub open spec fn injected_code(codes: Seq<u32>, frame_idx: u32) -> u32 {
    codes[(frame_idx as int) % (codes.len() as int)]
}

/// The bytes of datagram `d` of a generated frame.
pub open spec fn spec_generated_datagram(
    slaves: u16,
    frame_idx: u32,
    include_faults: bool,
    codes: Seq<u32>,
    wcs: Seq<u16>,
    d: int,
) -> Seq<u8> {
    spec_datagram_bytes(
        (d + 1) as u16,
        frame_idx,
        d as u8,
        if fault_injected(slaves, frame_idx, include_faults, d) {
            Some(injected_code(codes, frame_idx))
        } else {
            None
        },
        d + 1 == slaves,
        wcs[d],
    )
}

/// The bytes of the first `n` datagrams of a generated frame.
pub open spec fn spec_generated_datagrams(
    slaves: u16,
    frame_idx: u32,
    include_faults: bool,
    codes: Seq<u32>,
    wcs: Seq<u16>,
    n: nat,
) -> Seq<u8>
    decreases n,
{
    if n == 0 {
        Seq::empty()
    } else {
        spec_generated_datagrams(slaves, frame_idx, include_faults, codes, wcs, (n - 1) as nat)
            + spec_generated_datagram(slaves, frame_idx, include_faults, codes, wcs, n - 1)
    }
}

/// The bytes of a generated frame: Ethernet header, EtherCAT header (whose
/// length is the datagrams' total, capped at 0x7FF) and one datagram per slave.
pub open spec fn spec_generated_frame(
    dest: Seq<u8>,
    src: Seq<u8>,
    slaves: u16,
    frame_idx: u32,
    include_faults: bool,
    codes: Seq<u32>,
    wcs: Seq<u16>,
) -> Seq<u8> {
    let dgs = spec_generated_datagrams(slaves, frame_idx, include_faults, codes, wcs, slaves as nat);
    let ec_len: u16 = if dgs.len() < 0x7FF {
        dgs.len() as u16
    } else {
        0x7FF
    };
    dest + src + seq![0x88u8, 0xA4u8] + seq![
        (ec_len % 256) as u8,
        ((ec_len / 256) % 8) as u8,
        0u8,
        ((slaves % 256) % 128) as u8,
    ] + dgs
}

/// The frame can be generated without overflow: fault codes are given when
/// faults are injected, and every slave's words fit their types.
pub open spec fn generation_fits(slaves: u16, frame_idx: u32, include_faults: bool, codes: Seq<u32>) -> bool {
    &&& (include_faults && slaves > 0 && frame_idx % 37 == 23) ==> codes.len() > 0
    &&& forall|d: int| 0 <= d < slaves ==> #[trigger] datagram_values_fit((d + 1) as u16, frame_idx)
}

/// Whether a frame can be generated without overflow.
pub fn can_generate(slaves: u16, frame_idx: u32, include_faults: bool, fault_codes: &[u32]) -> (r: bool)
    ensures
        r == generation_fits(slaves, frame_idx, include_faults, fault_codes@),
{
    if include_faults && slaves > 0 && frame_idx % 37 == 23 && fault_codes.len() == 0 {
        return false;
    }
    let mut d: u16 = 0;
    while d < slaves
        invariant
            d <= slaves,
            forall|k: int| 0 <= k < d ==> #[trigger] datagram_values_fit((k + 1) as u16, frame_idx),
        decreases slaves - d,
    {
        if !values_fit(d + 1, frame_idx) {
            return false;
        }
        d = d + 1;
    }
    true
}

/// Assembles a generated frame from its addresses and working counters.
pub fn assemble_frame(
    dest: [u8; 6],
    src: [u8; 6],
    slaves: u16,
    frame_idx: u32,
    include_faults: bool,
    fault_codes: &[u32],
    wcs: &[u16],
) -> (data: Vec<u8>)
    requires
        wcs@.len() == slaves,
        generation_fits(slaves, frame_idx, include_faults, fault_codes@),
    ensures
        data@ == spec_generated_frame(
            dest@,
            src@,
            slaves,
            frame_idx,
            include_faults,
            fault_codes@,
            wcs@,
        ),
{
    let mut dgs: Vec<u8> = Vec::new();
    let mut d: u16 = 0;
    while d < slaves
        invariant
            d <= slaves,
            wcs@.len() == slaves,
            generation_fits(slaves, frame_idx, include_faults, fault_codes@),
            dgs@ == spec_generated_datagrams(
                slaves,
                frame_idx,
                include_faults,
                fault_codes@,
                wcs@,
                d as nat,
            ),
        decreases slaves - d,
    {
        let sid: u16 = d + 1;
        let is_last = d + 1 == slaves;
        let inject = include_faults && frame_idx % 37 == 23 && sid == (frame_idx % (
        slaves as u32)) as u16 + 1;
        let fault = if inject {
            Some(fault_codes[(frame_idx as usize) % fault_codes.len()])
        } else {
            None
        };
        proof {
            assert(datagram_values_fit((d as int + 1) as u16, frame_idx));
        }
        let dg = datagram_bytes(sid, frame_idx, d as u8, fault, is_last, wcs[d as usize]);
        dgs.extend_from_slice(dg.as_slice());
        proof {
            assert(dgs@ =~= spec_generated_datagrams(
                slaves,
                frame_idx,
                include_faults,
                fault_codes@,
                wcs@,
                d as nat,
            ) + dg@);
        }
        d = d + 1;
    }
    let mut data: Vec<u8> = Vec::new();
    let mut k: usize = 0;
    while k < 6
        invariant
            k <= 6,
            data@ == dest@.subrange(0, k as int),
        decreases 6 - k,
    {
        data.push(dest[k]);
        k = k + 1;
        assert(data@ =~= dest@.subrange(0, k as int));
    }
    k = 0;
    while k < 6
        invariant
            k <= 6,
            data@ == dest@ + src@.subrange(0, k as int),
        decreases 6 - k,
    {
        data.push(src[k]);
        k = k + 1;
        assert(data@ =~= dest@ + src@.subrange(0, k as int));
    }
    data.push(0x88);
    data.push(0xA4);
    let total = dgs.len();
    let ec_len: u16 = if total < 0x7FF {
        total as u16
    } else {
        0x7FF
    };
    data.push((ec_len % 256) as u8);
    data.push(((ec_len / 256) % 8) as u8);
    data.push(0);
    data.push(((slaves % 256) % 128) as u8);
    let ghost head = data@;
    data.extend_from_slice(dgs.as_slice());
    assert(data@ =~= spec_generated_frame(
        dest@,
        src@,
        slaves,
        frame_idx,
        include_faults,
        fault_codes@,
        wcs@,
    ));
    data
}


/// `rand::Rng::fill` on six bytes: six random bytes. Nothing is stated of them.
#[verifier::external_body]
fn random_mac(rng: &mut ThreadRng) -> (mac: [u8; 6]) {
    let mut mac = [0u8; 6];
    rng.fill(&mut mac[..]);
    mac
}

/// `rand::Rng::random_range(1..=8)`: a random working counter from 1 to 8.
#[verifier::external_body]
fn random_working_counter(rng: &mut ThreadRng) -> (wc: u16)
    ensures
        1 <= wc <= 8,
{
    rng.random_range(1u16..=8u16)
}

/// The fault a datagram carries: the frame's code when one is injected.
pub open spec fn chosen_fault(inject: bool, codes: Seq<u32>, frame_idx: u32) -> Option<u32> {
    if inject {
        Some(injected_code(codes, frame_idx))
    } else {
        None
    }
}

/// The working counters are all from 1 to 8.
pub open spec fn counters_in_range(wcs: Seq<u16>) -> bool {
    forall|i: int| 0 <= i < wcs.len() ==> 1 <= #[trigger] wcs[i] <= 8
}

/// One generated datagram with a random working counter from 1 to 8.
pub fn build_logical_read_write(
    rng: &mut ThreadRng,
    slave_id: u16,
    frame_idx: u32,
    dg_idx: u8,
    inject_fault: bool,
    fault_codes: &[u32],
    is_last: bool,
) -> (dg: Vec<u8>)
    requires
        inject_fault ==> fault_codes@.len() > 0,
        !inject_fault ==> datagram_values_fit(slave_id, frame_idx),
    ensures
        exists|wc: u16|
            1 <= wc <= 8 && dg@ == #[trigger] spec_datagram_bytes(
                slave_id,
                frame_idx,
                dg_idx,
                chosen_fault(inject_fault, fault_codes@, frame_idx),
                is_last,
                wc,
            ),
{
    let fault = if inject_fault {
        Some(fault_codes[(frame_idx as usize) % fault_codes.len()])
    } else {
        None
    };
    let wc = random_working_counter(rng);
    datagram_bytes(slave_id, frame_idx, dg_idx, fault, is_last, wc)
}

/// A generated frame with random Ethernet addresses (the destination's first
/// byte set to 0x01) and random working counters from 1 to 8.
pub fn build_ethercat_frame(
    rng: &mut ThreadRng,
    slaves: u16,
    frame_idx: u32,
    include_faults: bool,
    fault_codes: &[u32],
) -> (data: Vec<u8>)
    requires
        generation_fits(slaves, frame_idx, include_faults, fault_codes@),
    ensures
        exists|dest: Seq<u8>, src: Seq<u8>, wcs: Seq<u16>|
            dest.len() == 6 && src.len() == 6 && dest[0] == 0x01 && wcs.len() == slaves
                && counters_in_range(wcs) && data@ == #[trigger] spec_generated_frame(
                dest,
                src,
                slaves,
                frame_idx,
                include_faults,
                fault_codes@,
                wcs,
            ),
{
    let drawn = random_mac(rng);
    let src = random_mac(rng);
    let dest: [u8; 6] = [0x01, drawn[1], drawn[2], drawn[3], drawn[4], drawn[5]];
    let mut wcs: Vec<u16> = Vec::new();
    let mut d: u16 = 0;
    while d < slaves
        invariant
            d <= slaves,
            wcs@.len() == d,
            counters_in_range(wcs@),
        decreases slaves - d,
    {
        let wc = random_working_counter(rng);
        wcs.push(wc);
        d = d + 1;
    }
    let data = assemble_frame(dest, src, slaves, frame_idx, include_faults, fault_codes, wcs.as_slice());
    assert(dest@.len() == 6 && src@.len() == 6 && dest@[0] == 0x01);
    data
}


/// `r` has these fields.
pub open spec fn register_is(
    r: TemplateRegister,
    index: u16,
    subindex: u8,
    name: Seq<char>,
    description: Seq<char>,
    data_type: Seq<char>,
    unit: Option<Seq<char>>,
    business_comment: Option<Seq<char>>,
) -> bool {
    &&& r.index == index
    &&& r.subindex == subindex
    &&& r.name@ == name
    &&& r.description@ == description
    &&& r.data_type@ == data_type
    &&& crate::opt_string_view(r.unit) == unit
    &&& crate::opt_string_view(r.business_comment) == business_comment
}

/// Register `k` of the example registers of slave `id`.
pub open spec fn generated_register(r: TemplateRegister, k: int, id: nat) -> bool {
    let n = spec_decimal(id);
    if k == 0 {
        register_is(
            r,
            0x7000,
            1,
            "Control_Word_S"@ + n,
            "DS402 control word"@,
            "uint16"@,
            None,
            Some("Motion controller control word for station "@ + n),
        )
    } else if k == 1 {
        register_is(
            r,
            0x7000,
            2,
            "Target_Position_S"@ + n,
            "Target position in encoder counts"@,
            "int32"@,
            Some("count"@),
            Some("Axis "@ + n + " position command, negative = reverse direction"@),
        )
    } else if k == 2 {
        register_is(
            r,
            0x7000,
            3,
            "Target_Velocity_S"@ + n,
            "Target velocity"@,
            "int32"@,
            Some("rpm"@),
            None,
        )
    } else if k == 3 {
        register_is(
            r,
            0x7010,
            1,
            "Status_Word_S"@ + n,
            "DS402 status word"@,
            "uint16"@,
            None,
            Some("Axis "@ + n + " status, bit 0 = Ready to switch on"@),
        )
    } else if k == 4 {
        register_is(
            r,
            0x7010,
            2,
            "Actual_Position_S"@ + n,
            "Actual encoder position"@,
            "int32"@,
            Some("count"@),
            None,
        )
    } else if k == 5 {
        register_is(
            r,
            0x7010,
            3,
            "Actual_Velocity_S"@ + n,
            "Actual motor velocity"@,
            "int32"@,
            Some("rpm"@),
            None,
        )
    } else if k == 6 {
        register_is(
            r,
            0x7020,
            1,
            "Digital_Inputs_S"@ + n,
            "DI bitmask"@,
            "uint32"@,
            None,
            Some("Conveyor sensors, emergency stop, door interlocks"@),
        )
    } else if k == 7 {
        register_is(
            r,
            0x7020,
            2,
            "Digital_Outputs_S"@ + n,
            "DO bitmask"@,
            "uint32"@,
            None,
            Some("Conveyor motors, valves, warning lights"@),
        )
    } else if k == 8 {
        register_is(
            r,
            0x7030,
            1,
            "Analog_Input_1_S"@ + n,
            "Temperature sensor"@,
            "uint16"@,
            Some("0.1°C"@),
            Some("Motor winding temperature sensor, warn > 120°C"@),
        )
    } else if k == 9 {
        register_is(
            r,
            0x7030,
            2,
            "Analog_Input_2_S"@ + n,
            "Pressure sensor"@,
            "uint16"@,
            Some("kPa"@),
            Some("Pneumatic system pressure, normal 500-700 kPa"@),
        )
    } else {
        false
    }
}

/// An example slave with number `id`.
pub open spec fn generated_slave(s: TemplateSlave, id: nat) -> bool {
    &&& s.slave_id == id as u16
    &&& s.device_name@ == "Slave-Device-"@ + spec_decimal(id)
    &&& s.vendor_id == 2 + id
    &&& s.product_code == 0x1000 + id
    &&& s.registers@.len() == 10
    &&& forall|k: int| 0 <= k < 10 ==> #[trigger] generated_register(s.registers@[k], k, id)
}

/// The example slave with number `id`: ten registers of a servo axis and its I/O.
fn example_slave(id: u32) -> (s: TemplateSlave)
    requires
        id <= u32::MAX - 0x1000,
    ensures
        generated_slave(s, id as nat),
{
    let n = u64_to_decimal(id as u64);
    let mut registers: Vec<TemplateRegister> = Vec::new();
    registers.push(
        TemplateRegister {
            index: 0x7000,
            subindex: 1,
            name: concat("Control_Word_S", n.as_str()),
            description: owned("DS402 control word"),
            data_type: owned("uint16"),
            unit: None,
            business_comment: Some(concat("Motion controller control word for station ", n.as_str())),
        },
    );
    registers.push(
        TemplateRegister {
            index: 0x7000,
            subindex: 2,
            name: concat("Target_Position_S", n.as_str()),
            description: owned("Target position in encoder counts"),
            data_type: owned("int32"),
            unit: Some(owned("count")),
            business_comment: Some(concat(concat("Axis ", n.as_str()).as_str(), " position command, negative = reverse direction")),
        },
    );
    registers.push(
        TemplateRegister {
            index: 0x7000,
            subindex: 3,
            name: concat("Target_Velocity_S", n.as_str()),
            description: owned("Target velocity"),
            data_type: owned("int32"),
            unit: Some(owned("rpm")),
            business_comment: None,
        },
    );
    registers.push(
        TemplateRegister {
            index: 0x7010,
            subindex: 1,
            name: concat("Status_Word_S", n.as_str()),
            description: owned("DS402 status word"),
            data_type: owned("uint16"),
            unit: None,
            business_comment: Some(concat(concat("Axis ", n.as_str()).as_str(), " status, bit 0 = Ready to switch on")),
        },
    );
    registers.push(
        TemplateRegister {
            index: 0x7010,
            subindex: 2,
            name: concat("Actual_Position_S", n.as_str()),
            description: owned("Actual encoder position"),
            data_type: owned("int32"),
            unit: Some(owned("count")),
            business_comment: None,
        },
    );
    registers.push(
        TemplateRegister {
            index: 0x7010,
            subindex: 3,
            name: concat("Actual_Velocity_S", n.as_str()),
            description: owned("Actual motor velocity"),
            data_type: owned("int32"),
            unit: Some(owned("rpm")),
            business_comment: None,
        },
    );
    registers.push(
        TemplateRegister {
            index: 0x7020,
            subindex: 1,
            name: concat("Digital_Inputs_S", n.as_str()),
            description: owned("DI bitmask"),
            data_type: owned("uint32"),
            unit: None,
            business_comment: Some(owned("Conveyor sensors, emergency stop, door interlocks")),
        },
    );
    registers.push(
        TemplateRegister {
            index: 0x7020,
            subindex: 2,
            name: concat("Digital_Outputs_S", n.as_str()),
            description: owned("DO bitmask"),
            data_type: owned("uint32"),
            unit: None,
            business_comment: Some(owned("Conveyor motors, valves, warning lights")),
        },
    );
    registers.push(
        TemplateRegister {
            index: 0x7030,
            subindex: 1,
            name: concat("Analog_Input_1_S", n.as_str()),
            description: owned("Temperature sensor"),
            data_type: owned("uint16"),
            unit: Some(owned("0.1°C")),
            business_comment: Some(owned("Motor winding temperature sensor, warn > 120°C")),
        },
    );
    registers.push(
        TemplateRegister {
            index: 0x7030,
            subindex: 2,
            name: concat("Analog_Input_2_S", n.as_str()),
            description: owned("Pressure sensor"),
            data_type: owned("uint16"),
            unit: Some(owned("kPa")),
            business_comment: Some(owned("Pneumatic system pressure, normal 500-700 kPa")),
        },
    );
    let s = TemplateSlave {
        slave_id: id as u16,
        device_name: concat("Slave-Device-", n.as_str()),
        vendor_id: 0x00000002 + id,
        product_code: 0x1000 + id,
        registers,
    };
    assert forall|k: int| 0 <= k < 10 implies #[trigger] generated_register(s.registers@[k], k, id as nat) by {
        assert(0 <= k < 10);
    }
    s
}

/// An example template for `slave_count` slaves, numbered from 1.
pub fn build_template(slave_count: u32) -> (t: ParseTemplate)
    requires
        slave_count <= u32::MAX - 0x1000,
    ensures
        t.version@ == "1.0"@,
        t.production_line@ == "Production-Line-A"@,
        t.description@ == "Auto-generated template for EtherCAT register-to-business mapping"@,
        t.slaves@.len() == slave_count,
        forall|i: int| 0 <= i < slave_count ==> #[trigger] generated_slave(t.slaves@[i], (i + 1) as nat),
{
    let mut slaves: Vec<TemplateSlave> = Vec::new();
    let mut id: u32 = 1;
    while id <= slave_count
        invariant
            1 <= id,
            id <= slave_count + 1,
            slave_count <= u32::MAX - 0x1000,
            slaves@.len() == id - 1,
            forall|i: int| 0 <= i < id - 1 ==> #[trigger] generated_slave(slaves@[i], (i + 1) as nat),
        decreases slave_count + 1 - id,
    {
        slaves.push(example_slave(id));
        id = id + 1;
    }
    ParseTemplate {
        version: owned("1.0"),
        production_line: owned("Production-Line-A"),
        description: owned("Auto-generated template for EtherCAT register-to-business mapping"),
        slaves,
    }
}


/// Timestamp of record `i` of a generated capture: one millisecond apart,
/// from 1 700 000 000 s after the epoch.
pub open spec fn spec_capture_ts(i: int) -> u64 {
    (1_700_000_000_000_000_000 + i * 1_000_000) as u64
}

/// A frame that `build_ethercat_frame` can give for frame `frame_idx`.
pub open spec fn is_generated_frame(
    d: Seq<u8>,
    slaves: u16,
    frame_idx: u32,
    include_faults: bool,
    codes: Seq<u32>,
) -> bool {
    exists|dest: Seq<u8>, src: Seq<u8>, wcs: Seq<u16>|
        dest.len() == 6 && src.len() == 6 && dest[0] == 0x01 && wcs.len() == slaves
            && counters_in_range(wcs) && d == #[trigger] spec_generated_frame(
            dest,
            src,
            slaves,
            frame_idx,
            include_faults,
            codes,
            wcs,
        )
}

/// The raw records of frames `i..n`, each with its capture timestamp.
pub open spec fn spec_capture_from(frames: Seq<Seq<u8>>, i: nat, n: nat) -> Seq<u8>
    decreases n - i,
{
    if i >= n {
        Seq::empty()
    } else {
        crate::io_reader::spec_raw_record_bytes(spec_capture_ts(i as int), frames[i as int])
            + spec_capture_from(frames, i + 1, n)
    }
}

/// Records `i..k+1` are records `i..k` followed by record `k`.
proof fn lemma_capture_extend(frames: Seq<Seq<u8>>, i: nat, k: nat)
    requires
        i <= k,
    ensures
        spec_capture_from(frames, i, k + 1) == spec_capture_from(frames, i, k)
            + crate::io_reader::spec_raw_record_bytes(spec_capture_ts(k as int), frames[k as int]),
    decreases k - i,
{
    if i < k {
        lemma_capture_extend(frames, i + 1, k);
        assert(spec_capture_from(frames, i, k + 1) =~= spec_capture_from(frames, i, k)
            + crate::io_reader::spec_raw_record_bytes(spec_capture_ts(k as int), frames[k as int]));
    } else {
        assert(spec_capture_from(frames, k, k) =~= Seq::<u8>::empty());
        assert(spec_capture_from(frames, k + 1, k + 1) =~= Seq::<u8>::empty());
        assert(spec_capture_from(frames, i, k + 1) =~= spec_capture_from(frames, i, k)
            + crate::io_reader::spec_raw_record_bytes(spec_capture_ts(k as int), frames[k as int]));
    }
}

/// The contents of a sample capture file: `frame_count` generated frames,
/// each as a raw record stamped one millisecond after the one before; read
/// back record by record it gives exactly those frames, then the end.
pub fn generate_capture(
    rng: &mut ThreadRng,
    frame_count: u32,
    slaves: u16,
    include_faults: bool,
    fault_codes: &[u32],
) -> (bytes: Vec<u8>)
    requires
        forall|f: u32| f < frame_count ==> #[trigger] generation_fits(slaves, f, include_faults, fault_codes@),
    ensures
        exists|frames: Seq<Seq<u8>>|
            {
                &&& frames.len() == frame_count
                &&& forall|i: int|
                    0 <= i < frame_count ==> is_generated_frame(
                        #[trigger] frames[i],
                        slaves,
                        i as u32,
                        include_faults,
                        fault_codes@,
                    )
                &&& bytes@ == spec_capture_from(frames, 0, frame_count as nat)
                &&& crate::laws::spec_read_records(bytes@, frame_count as nat + 1) == Seq::new(
                    frame_count as nat,
                    |i: int| crate::laws::capture_frame_outcome(frames, i),
                ).push(crate::io_reader::RecordOutcome::End)
            },
{
    let mut bytes: Vec<u8> = Vec::new();
    let ghost mut frames: Seq<Seq<u8>> = Seq::empty();
    let mut ts: u64 = 1_700_000_000_000_000_000;
    let mut f: u32 = 0;
    while f < frame_count
        invariant
            f <= frame_count,
            frames.len() == f,
            ts == spec_capture_ts(f as int),
            forall|g: u32| g < frame_count ==> #[trigger] generation_fits(slaves, g, include_faults, fault_codes@),
            forall|i: int|
                0 <= i < f ==> is_generated_frame(#[trigger] frames[i], slaves, i as u32, include_faults, fault_codes@),
            bytes@ == spec_capture_from(frames, 0, f as nat),
        decreases frame_count - f,
    {
        assert(generation_fits(slaves, f, include_faults, fault_codes@));
        let frame = build_ethercat_frame(rng, slaves, f, include_faults, fault_codes);
        let record = crate::io_reader::encode_raw_record(ts, frame.as_slice());
        let mut rec = record;
        bytes.append(&mut rec);
        proof {
            let nf = frames.push(frame@);
            assert forall|i: int| 0 <= i < f + 1 implies is_generated_frame(
                #[trigger] nf[i],
                slaves,
                i as u32,
                include_faults,
                fault_codes@,
            ) by {
                if i < f {
                    assert(nf[i] == frames[i]);
                }
            }
            assert(spec_capture_from(nf, 0, f as nat) == spec_capture_from(frames, 0, f as nat)) by {
                lemma_capture_prefix_same(frames, nf, 0, f as nat);
            }
            lemma_capture_extend(nf, 0, f as nat);
            frames = nf;
        }
        ts = ts + 1_000_000;
        f = f + 1;
    }
    proof {
        crate::laws::law_generated_capture_reads_all(frames, frame_count as nat, slaves, include_faults, fault_codes@);
    }
    bytes
}

/// Records `i..n` depend only on frames `i..n`.
proof fn lemma_capture_prefix_same(a: Seq<Seq<u8>>, b: Seq<Seq<u8>>, i: nat, n: nat)
    requires
        n <= a.len(),
        n <= b.len(),
        forall|j: int| 0 <= j < n ==> a[j] == b[j],
    ensures
        spec_capture_from(a, i, n) == spec_capture_from(b, i, n),
    decreases n - i,
{
    if i < n {
        lemma_capture_prefix_same(a, b, i + 1, n);
    }
}

} // verus!
