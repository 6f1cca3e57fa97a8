//! Properties that relate several functions of the library.

use crate::ethercat_parser::{
    spec_al_error_text,
    filter_is_empty, spec_filter_frame, spec_kept, spec_matches_datagram, spec_matches_frame,
    FilterOptions, header_of, le16, le32, spec_dg_data_len, spec_datagram, spec_ethertype, spec_header_error,
    spec_parse_datagram, spec_parse_datagrams, spec_payload_end, RawEthercatFrame,
};
use crate::generator::{
    datagram_values_fit, fault_injected, generation_fits, injected_code, spec_datagram_bytes,
    spec_generated_datagram, spec_generated_datagrams, spec_generated_frame, u16_le, u32_le,
};
use crate::generator::{counters_in_range, generated_slave, is_generated_frame, spec_capture_from, spec_capture_ts};
use crate::io_reader::{
    le32_at, spec_raw_record, spec_raw_record_bytes, u64_le, ReaderError, RecordOutcome,
};
use crate::cli::{spec_fault_code, spec_parse_fault_codes};
use crate::pdo_converter::{spec_device_index, spec_find_device};
use crate::{
    TemplateSlave, EthercatFrameView, spec_command_from_u8, EthercatCommand, ParsedDatagramView, AL_ERROR_CODE_REG,
    ETHERCAT_ETHERTYPE,
};
use vstd::prelude::*;

verus! {

/// What reading back datagram `d` of a generated frame shows: an LRW
/// datagram to slave `d + 1`, carrying the fault code exactly where a fault
/// was injected, with the working counter that was written.
pub open spec fn generated_datagram_read_back(
    dg: ParsedDatagramView,
    slaves: u16,
    frame_idx: u32,
    include_faults: bool,
    codes: Seq<u32>,
    wcs: Seq<u16>,
    d: int,
) -> bool {
    let fault = fault_injected(slaves, frame_idx, include_faults, d);
    &&& dg.header.command == EthercatCommand::LRW
    &&& dg.header.index == d as u8
    &&& dg.header.slave_address == (d + 1) as u16
    &&& dg.header.register_offset == (if fault {
        AL_ERROR_CODE_REG
    } else {
        0x0010u16
    })
    &&& dg.header.data_length == (if fault {
        4u16
    } else {
        8u16
    })
    &&& dg.header.next == (d + 1 != slaves)
    &&& dg.header.working_counter == wcs[d]
    &&& dg.is_fault == fault
    &&& dg.fault_code == (if fault {
        Some(injected_code(codes, frame_idx))
    } else {
        None
    })
}

proof fn lemma_le16_of_bytes(v: u16)
    ensures
        le16(u16_le(v)[0], u16_le(v)[1]) == v,
{
}

proof fn lemma_le32_of_bytes(v: u32)
    ensures
        le32(u32_le(v)[0], u32_le(v)[1], u32_le(v)[2], u32_le(v)[3]) == v,
{
}

proof fn lemma_datagram_bytes_len(
    slave_id: u16,
    frame_idx: u32,
    dg_idx: u8,
    fault: Option<u32>,
    is_last: bool,
    wc: u16,
)
    ensures
        fault is Some ==> spec_datagram_bytes(slave_id, frame_idx, dg_idx, fault, is_last, wc).len()
            == 16,
        fault is None ==> spec_datagram_bytes(slave_id, frame_idx, dg_idx, fault, is_last, wc).len()
            == 20,
{
    let b = spec_datagram_bytes(slave_id, frame_idx, dg_idx, fault, is_last, wc);
    match fault {
        Some(code) => {
            assert(u32_le(code).len() == 4);
            let h = seq![0x0Cu8, dg_idx] + u16_le(slave_id) + u16_le(AL_ERROR_CODE_REG);
            assert(h.len() == 6);
            assert(b.len() == 16);
        },
        None => {
            let payload = u32_le(crate::generator::spec_position(slave_id, frame_idx) as u32)
                + u16_le(crate::generator::spec_velocity(slave_id, frame_idx) as u16) + u16_le(
                0xFF00u16 | slave_id,
            );
            assert(payload.len() == 8);
            let len_flags: u16 = if is_last {
                8
            } else {
                (8 + 0x8000) as u16
            };
            let irq: u16 = if is_last {
                1
            } else {
                0
            };
            let h = seq![0x0Cu8, dg_idx] + u16_le(slave_id) + u16_le(0x0010u16) + u16_le(len_flags)
                + u16_le(irq);
            assert(h.len() == 10);
            assert(b == h + payload + u16_le(wc));
            assert(b.len() == 20);
        },
    }
}

/// A generated datagram, followed by anything, decodes to what was written.
proof fn lemma_parse_generated_datagram(
    slaves: u16,
    frame_idx: u32,
    include_faults: bool,
    codes: Seq<u32>,
    wcs: Seq<u16>,
    d: int,
    tail: Seq<u8>,
)
    requires
        0 <= d < slaves,
        wcs.len() == slaves,
    ensures
        ({
            let b = spec_generated_datagram(slaves, frame_idx, include_faults, codes, wcs, d);
            &&& spec_parse_datagram(b + tail) == Ok::<(ParsedDatagramView, nat), crate::ethercat_parser::ParseError>((spec_datagram(b + tail), b.len()))
            &&& generated_datagram_read_back(
                spec_datagram(b + tail),
                slaves,
                frame_idx,
                include_faults,
                codes,
                wcs,
                d,
            )
        }),
{
    let inj = fault_injected(slaves, frame_idx, include_faults, d);
    let fault = if inj {
        Some(injected_code(codes, frame_idx))
    } else {
        None
    };
    let b = spec_generated_datagram(slaves, frame_idx, include_faults, codes, wcs, d);
    assert(b == spec_datagram_bytes((d + 1) as u16, frame_idx, d as u8, fault, d + 1 == slaves, wcs[d]));
    lemma_datagram_bytes_len((d + 1) as u16, frame_idx, d as u8, fault, d + 1 == slaves, wcs[d]);
    let x = b + tail;
    let plen: u16 = if inj {
        4
    } else {
        8
    };
    let len_flags: u16 = if d + 1 == slaves {
        plen
    } else {
        (plen + 0x8000) as u16
    };
    assert(x[6] == u16_le(len_flags)[0] && x[7] == u16_le(len_flags)[1]);
    lemma_le16_of_bytes(len_flags);
    assert(spec_dg_data_len(x) == plen);
    assert(x[2] == u16_le((d + 1) as u16)[0] && x[3] == u16_le((d + 1) as u16)[1]);
    lemma_le16_of_bytes((d + 1) as u16);
    let reg: u16 = if inj {
        AL_ERROR_CODE_REG
    } else {
        0x0010
    };
    assert(x[4] == u16_le(reg)[0] && x[5] == u16_le(reg)[1]);
    lemma_le16_of_bytes(reg);
    assert(x[10 + plen] == u16_le(wcs[d])[0] && x[11 + plen] == u16_le(wcs[d])[1]);
    lemma_le16_of_bytes(wcs[d]);
    if inj {
        let code = injected_code(codes, frame_idx);
        assert(x[10] == u32_le(code)[0] && x[11] == u32_le(code)[1] && x[12] == u32_le(code)[2]
            && x[13] == u32_le(code)[3]);
        lemma_le32_of_bytes(code);
    }
    assert(spec_command_from_u8(x[0]) == EthercatCommand::LRW);
    reveal(spec_datagram);
}

proof fn lemma_generated_prefix(
    slaves: u16,
    frame_idx: u32,
    include_faults: bool,
    codes: Seq<u32>,
    wcs: Seq<u16>,
    k: nat,
    n: nat,
)
    requires
        k <= n,
    ensures
        spec_generated_datagrams(slaves, frame_idx, include_faults, codes, wcs, n).subrange(
            0,
            spec_generated_datagrams(slaves, frame_idx, include_faults, codes, wcs, k).len() as int,
        ) == spec_generated_datagrams(slaves, frame_idx, include_faults, codes, wcs, k),
        spec_generated_datagrams(slaves, frame_idx, include_faults, codes, wcs, k).len()
            <= spec_generated_datagrams(slaves, frame_idx, include_faults, codes, wcs, n).len(),
    decreases n - k,
{
    if k < n {
        lemma_generated_prefix(slaves, frame_idx, include_faults, codes, wcs, k, (n - 1) as nat);
        let gk = spec_generated_datagrams(slaves, frame_idx, include_faults, codes, wcs, k);
        let gn1 = spec_generated_datagrams(slaves, frame_idx, include_faults, codes, wcs, (n - 1) as nat);
        let gn = spec_generated_datagrams(slaves, frame_idx, include_faults, codes, wcs, n);
        assert(gn == gn1 + spec_generated_datagram(slaves, frame_idx, include_faults, codes, wcs, n - 1));
        assert(gn.subrange(0, gk.len() as int) =~= gn1.subrange(0, gk.len() as int));
    } else {
        let gk = spec_generated_datagrams(slaves, frame_idx, include_faults, codes, wcs, k);
        assert(gk.subrange(0, gk.len() as int) =~= gk);
    }
}

proof fn lemma_split(bytes: Seq<u8>, all: Seq<u8>, gk: Seq<u8>, b: Seq<u8>, gk1: Seq<u8>)
    requires
        bytes.len() == 18 + all.len(),
        bytes.subrange(18, bytes.len() as int) == all,
        gk1.len() <= all.len(),
        all.subrange(0, gk1.len() as int) == gk1,
        gk1 == gk + b,
    ensures
        bytes.subrange(18 + gk.len() as int, bytes.len() as int) == b + bytes.subrange(
            18 + gk1.len() as int,
            bytes.len() as int,
        ),
{
    let lhs = bytes.subrange(18 + gk.len() as int, bytes.len() as int);
    let rhs = b + bytes.subrange(18 + gk1.len() as int, bytes.len() as int);
    assert forall|i: int| 0 <= i < lhs.len() implies lhs[i] == rhs[i] by {
        assert(lhs[i] == bytes[18 + gk.len() + i]);
        assert(bytes[18 + gk.len() + i] == all[gk.len() + i]);
        if i < b.len() {
            assert(all[gk.len() + i] == gk1[gk.len() + i]);
        }
    }
    assert(lhs =~= rhs);
}

proof fn lemma_parse_generated_from(
    bytes: Seq<u8>,
    slaves: u16,
    frame_idx: u32,
    include_faults: bool,
    codes: Seq<u32>,
    wcs: Seq<u16>,
    k: nat,
)
    requires
        k <= slaves,
        wcs.len() == slaves,
        bytes.len() == 18 + spec_generated_datagrams(
            slaves,
            frame_idx,
            include_faults,
            codes,
            wcs,
            slaves as nat,
        ).len(),
        bytes.subrange(18, bytes.len() as int) == spec_generated_datagrams(
            slaves,
            frame_idx,
            include_faults,
            codes,
            wcs,
            slaves as nat,
        ),
    ensures
        spec_parse_datagrams(
            bytes,
            (18 + spec_generated_datagrams(slaves, frame_idx, include_faults, codes, wcs, k).len()) as nat,
            bytes.len(),
        ) matches Ok(dgs) && dgs.len() == slaves - k && forall|j: int|
            0 <= j < dgs.len() ==> generated_datagram_read_back(
                #[trigger] dgs[j],
                slaves,
                frame_idx,
                include_faults,
                codes,
                wcs,
                k + j,
            ),
    decreases slaves - k,
{
    let all = spec_generated_datagrams(slaves, frame_idx, include_faults, codes, wcs, slaves as nat);
    let gk = spec_generated_datagrams(slaves, frame_idx, include_faults, codes, wcs, k);
    let off = (18 + gk.len()) as nat;
    let end = bytes.len();
    lemma_generated_prefix(slaves, frame_idx, include_faults, codes, wcs, k, slaves as nat);
    if k == slaves {
        assert(off == end);
    } else {
        let gk1 = spec_generated_datagrams(slaves, frame_idx, include_faults, codes, wcs, k + 1);
        let b = spec_generated_datagram(slaves, frame_idx, include_faults, codes, wcs, k as int);
        lemma_generated_prefix(slaves, frame_idx, include_faults, codes, wcs, k + 1, slaves as nat);
        assert(gk1 == gk + b);
        let inj = fault_injected(slaves, frame_idx, include_faults, k as int);
        lemma_datagram_bytes_len(
            (k + 1) as u16,
            frame_idx,
            k as u8,
            if inj {
                Some(injected_code(codes, frame_idx))
            } else {
                None
            },
            k + 1 == slaves,
            wcs[k as int],
        );
        let tail = bytes.subrange(18 + gk1.len() as int, end as int);
        lemma_split(bytes, all, gk, b, gk1);
        lemma_parse_generated_datagram(slaves, frame_idx, include_faults, codes, wcs, k as int, tail);
        lemma_parse_generated_from(bytes, slaves, frame_idx, include_faults, codes, wcs, k + 1);
        crate::ethercat_parser::lemma_datagram_consumed(bytes.subrange(off as int, end as int));
        let next = spec_parse_datagrams(bytes, (18 + gk1.len()) as nat, end);
        let here = spec_parse_datagrams(bytes, off, end);
        let dgs1 = next->Ok_0;
        let dg = spec_datagram(b + tail);
        assert(here == Ok::<Seq<ParsedDatagramView>, crate::ethercat_parser::ParseError>(seq![dg] + dgs1));
        let dgs = seq![dg] + dgs1;
        assert forall|j: int| 0 <= j < dgs.len() implies generated_datagram_read_back(
            #[trigger] dgs[j],
            slaves,
            frame_idx,
            include_faults,
            codes,
            wcs,
            k + j,
        ) by {
            if j > 0 {
                assert(dgs[j] == dgs1[j - 1]);
                assert(generated_datagram_read_back(
                    dgs1[j - 1],
                    slaves,
                    frame_idx,
                    include_faults,
                    codes,
                    wcs,
                    (k + 1) + (j - 1),
                ));
            }
        }
    }
}

/// The headers of a generated frame are accepted: EtherCAT Ethertype, one
/// datagram announced per slave (modulo the 7-bit field), and an announced
/// length that covers exactly the datagrams when they fit the 11-bit field.
pub proof fn law_generated_frame_header(
    dest: Seq<u8>,
    src: Seq<u8>,
    slaves: u16,
    frame_idx: u32,
    include_faults: bool,
    codes: Seq<u32>,
    wcs: Seq<u16>,
)
    requires
        dest.len() == 6,
        src.len() == 6,
    ensures
        ({
            let bytes = spec_generated_frame(dest, src, slaves, frame_idx, include_faults, codes, wcs);
            let dgs = spec_generated_datagrams(slaves, frame_idx, include_faults, codes, wcs, slaves as nat);
            &&& spec_header_error(bytes) is None
            &&& spec_ethertype(bytes) == ETHERCAT_ETHERTYPE
            &&& bytes[17] % 128 == slaves % 128
            &&& bytes.len() == 18 + dgs.len()
            &&& dgs.len() <= 0x7FF ==> le16(bytes[14], bytes[15] % 8) == dgs.len()
        }),
{
    let bytes = spec_generated_frame(dest, src, slaves, frame_idx, include_faults, codes, wcs);
    assert(bytes[12] == 0x88 && bytes[13] == 0xA4);
}

/// A generated frame for at most 85 slaves (so that its datagrams fit the
/// 11-bit announced length) decodes back to what was generated: one LRW
/// datagram per slave, in order, with the register, data length, fault code
/// and working counter that were written.
pub proof fn law_generated_frame_decodes(
    raw: RawEthercatFrame,
    dest: Seq<u8>,
    src: Seq<u8>,
    slaves: u16,
    frame_idx: u32,
    include_faults: bool,
    codes: Seq<u32>,
    wcs: Seq<u16>,
)
    requires
        dest.len() == 6,
        src.len() == 6,
        wcs.len() == slaves,
        slaves <= 85,
        raw.data@ == spec_generated_frame(dest, src, slaves, frame_idx, include_faults, codes, wcs),
        header_of(raw.header, raw.data@),
    ensures
        spec_parse_datagrams(raw.data@, 18, spec_payload_end(raw)) matches Ok(dgs) && dgs.len()
            == slaves && forall|d: int|
            0 <= d < slaves ==> generated_datagram_read_back(
                #[trigger] dgs[d],
                slaves,
                frame_idx,
                include_faults,
                codes,
                wcs,
                d,
            ),
{
    let bytes = raw.data@;
    let all = spec_generated_datagrams(slaves, frame_idx, include_faults, codes, wcs, slaves as nat);
    lemma_generated_len(slaves, frame_idx, include_faults, codes, wcs, slaves as nat);
    assert(all.len() <= 24 * slaves);
    assert(bytes.subrange(18, bytes.len() as int) =~= all);
    assert(spec_ethertype(bytes) == ETHERCAT_ETHERTYPE);
    assert(raw.header.ec_header.length == all.len());
    assert(spec_payload_end(raw) == bytes.len());
    let g0 = spec_generated_datagrams(slaves, frame_idx, include_faults, codes, wcs, 0);
    assert(g0.len() == 0);
    lemma_parse_generated_from(bytes, slaves, frame_idx, include_faults, codes, wcs, 0);
}

proof fn lemma_generated_len(
    slaves: u16,
    frame_idx: u32,
    include_faults: bool,
    codes: Seq<u32>,
    wcs: Seq<u16>,
    n: nat,
)
    ensures
        spec_generated_datagrams(slaves, frame_idx, include_faults, codes, wcs, n).len() <= 24 * n,
    decreases n,
{
    if n > 0 {
        lemma_generated_len(slaves, frame_idx, include_faults, codes, wcs, (n - 1) as nat);
        let d = n - 1;
        let inj = fault_injected(slaves, frame_idx, include_faults, d);
        lemma_datagram_bytes_len(
            (d + 1) as u16,
            frame_idx,
            d as u8,
            if inj {
                Some(injected_code(codes, frame_idx))
            } else {
                None
            },
            d + 1 == slaves,
            wcs[d],
        );
    }
}


proof fn lemma_kept_all_match(f: FilterOptions, dgs: Seq<ParsedDatagramView>)
    ensures
        forall|i: int|
            0 <= i < spec_kept(f, dgs).len() ==> spec_matches_datagram(f, #[trigger] spec_kept(f, dgs)[i]),
        spec_kept(f, spec_kept(f, dgs)) == spec_kept(f, dgs),
    decreases dgs.len(),
{
    reveal(Seq::filter);
    let pred = |d: ParsedDatagramView| spec_matches_datagram(f, d);
    if dgs.len() > 0 {
        lemma_kept_all_match(f, dgs.drop_last());
        let k = spec_kept(f, dgs.drop_last());
        if pred(dgs.last()) {
            assert(spec_kept(f, dgs) == k.push(dgs.last()));
            assert(k.push(dgs.last()).drop_last() =~= k);
            assert(spec_kept(f, k.push(dgs.last())) == spec_kept(f, k).push(dgs.last()));
        } else {
            assert(spec_kept(f, dgs) == k);
        }
    } else {
        assert(spec_kept(f, dgs) =~= dgs);
    }
}

proof fn lemma_kept_empty_iff(f: FilterOptions, dgs: Seq<ParsedDatagramView>)
    ensures
        spec_kept(f, dgs).len() == 0 <==> forall|i: int|
            0 <= i < dgs.len() ==> !spec_matches_datagram(f, #[trigger] dgs[i]),
    decreases dgs.len(),
{
    reveal(Seq::filter);
    if dgs.len() > 0 {
        lemma_kept_empty_iff(f, dgs.drop_last());
        if spec_kept(f, dgs).len() == 0 {
            assert forall|i: int| 0 <= i < dgs.len() implies !spec_matches_datagram(f, #[trigger] dgs[i]) by {
                if i < dgs.len() - 1 {
                    assert(dgs[i] == dgs.drop_last()[i]);
                }
            }
        } else if forall|i: int| 0 <= i < dgs.len() ==> !spec_matches_datagram(f, #[trigger] dgs[i]) {
            assert(!spec_matches_datagram(f, dgs[dgs.len() - 1]));
            assert forall|i: int| 0 <= i < dgs.drop_last().len() implies !spec_matches_datagram(
                f,
                #[trigger] dgs.drop_last()[i],
            ) by {
                assert(dgs.drop_last()[i] == dgs[i]);
            }
        }
    }
}

/// Every datagram that filtering keeps meets the criteria, the rest of the
/// frame is unchanged, and filtering the result again changes nothing.
pub proof fn law_filter_idempotent(f: FilterOptions, frame: EthercatFrameView)
    ensures
        spec_filter_frame(f, frame) matches Some(g) ==> {
            &&& forall|i: int| 0 <= i < g.datagrams.len() ==> spec_matches_datagram(f, #[trigger] g.datagrams[i])
            &&& g == EthercatFrameView { datagrams: g.datagrams, ..frame }
            &&& spec_filter_frame(f, g) == Some(g)
        },
{
    lemma_kept_all_match(f, frame.datagrams);
    if spec_filter_frame(f, frame) is Some {
        let g = spec_filter_frame(f, frame)->Some_0;
        assert(g.datagrams == spec_kept(f, frame.datagrams));
        if !filter_is_empty(f) {
            assert(spec_matches_datagram(f, g.datagrams[0]));
        }
        assert(spec_matches_frame(f, g));
        assert(spec_filter_frame(f, g)->Some_0 =~= g);
    }
}

/// Filtering gives nothing exactly when no datagram of the frame meets the
/// criteria; a filter without criteria keeps every frame that has datagrams,
/// unchanged.
pub proof fn law_filter_selects_matching(f: FilterOptions, frame: EthercatFrameView)
    ensures
        spec_filter_frame(f, frame) is None <==> forall|i: int|
            0 <= i < frame.datagrams.len() ==> !spec_matches_datagram(
                f,
                #[trigger] frame.datagrams[i],
            ),
        filter_is_empty(f) && frame.datagrams.len() > 0 ==> spec_filter_frame(f, frame) == Some(frame),
{
    lemma_kept_empty_iff(f, frame.datagrams);
    lemma_kept_all_match(f, frame.datagrams);
    if filter_is_empty(f) {
        lemma_kept_everything(f, frame.datagrams);
        if frame.datagrams.len() > 0 {
            assert(spec_filter_frame(f, frame)->Some_0 =~= frame);
        }
    }
}

/// A frame that the filter selects is kept by filtering, cut down to its
/// matching datagrams; the only exception is a frame without datagrams under
/// a filter without criteria, which is selected but gives nothing.
pub proof fn law_filter_agrees_with_match(f: FilterOptions, frame: EthercatFrameView)
    ensures
        spec_filter_frame(f, frame) is Some <==> (spec_matches_frame(f, frame) && frame.datagrams.len()
            > 0),
{
    lemma_kept_empty_iff(f, frame.datagrams);
    if filter_is_empty(f) {
        lemma_kept_everything(f, frame.datagrams);
    }
    if spec_matches_frame(f, frame) && frame.datagrams.len() > 0 && !filter_is_empty(f) {
        let i = choose|i: int|
            0 <= i < frame.datagrams.len() && #[trigger] spec_matches_datagram(f, frame.datagrams[i]);
        assert(spec_matches_datagram(f, frame.datagrams[i]));
    }
}

proof fn lemma_kept_everything(f: FilterOptions, dgs: Seq<ParsedDatagramView>)
    requires
        filter_is_empty(f),
    ensures
        spec_kept(f, dgs) == dgs,
    decreases dgs.len(),
{
    reveal(Seq::filter);
    if dgs.len() > 0 {
        lemma_kept_everything(f, dgs.drop_last());
        assert(dgs.drop_last().push(dgs.last()) =~= dgs);
    } else {
        assert(spec_kept(f, dgs) =~= dgs);
    }
}

proof fn lemma_le64_of_bytes(v: u64)
    ensures
        crate::ethercat_parser::le64(u64_le(v)) == v,
{
    let lo = (v % 0x1_0000_0000) as u32;
    let hi = (v / 0x1_0000_0000) as u32;
    lemma_le32_of_bytes(lo);
    lemma_le32_of_bytes(hi);
    assert(u64_le(v) =~= u32_le(lo) + u32_le(hi));
}

/// A raw capture record written for a frame (of at most 2^32 - 1 bytes)
/// reads back, whatever follows it, as that frame with its timestamp and
/// length, or as the error with which its headers are refused; reading takes
/// exactly the record's bytes.
pub proof fn law_raw_record_read_back(timestamp_ns: u64, frame: Seq<u8>, rest: Seq<u8>)
    requires
        frame.len() <= u32::MAX,
    ensures
        spec_raw_record(spec_raw_record_bytes(timestamp_ns, frame) + rest) == (
            match spec_header_error(frame) {
                Some(e) => RecordOutcome::Failed(ReaderError::Frame(e)),
                None => RecordOutcome::Frame {
                    timestamp_ns,
                    frame_length: frame.len(),
                    data: frame,
                },
            },
            12 + frame.len(),
        ),
{
    let b = spec_raw_record_bytes(timestamp_ns, frame) + rest;
    let size = (frame.len() % 0x1_0000_0000) as u32;
    assert(size == frame.len());
    lemma_le32_of_bytes(size);
    lemma_le64_of_bytes(timestamp_ns);
    assert(le32_at(b, 0) == size);
    assert(b.subrange(4, 12) =~= u64_le(timestamp_ns));
    assert(b.subrange(12, 12 + size) =~= frame);
}

/// A raw capture record written for a frame (of at most 2^32 - 1 bytes),
/// when it starts the bytes waiting in the standard-input reader, announces
/// the frame's size and timestamp, holds the frame, and leaves exactly what
/// followed it once taken: records read from standard input come back as a
/// raw file gives them.
pub proof fn law_stdin_record_read_back(timestamp_ns: u64, frame: Seq<u8>, rest: Seq<u8>)
    requires
        frame.len() <= u32::MAX,
    ensures
        ({
            let b = spec_raw_record_bytes(timestamp_ns, frame) + rest;
            &&& b.len() >= 12
            &&& crate::ethercat_parser::le32(b[0], b[1], b[2], b[3]) == frame.len()
            &&& crate::ethercat_parser::le64(b.subrange(4, 12)) == timestamp_ns
            &&& b.subrange(12, 12 + frame.len() as int) == frame
            &&& b.subrange(12 + frame.len() as int, b.len() as int) == rest
        }),
{
    let b = spec_raw_record_bytes(timestamp_ns, frame) + rest;
    let size = (frame.len() % 0x1_0000_0000) as u32;
    assert(size == frame.len());
    lemma_le32_of_bytes(size);
    lemma_le64_of_bytes(timestamp_ns);
    assert(le32_at(b, 0) == size);
    assert(b.subrange(4, 12) =~= u64_le(timestamp_ns));
    assert(b.subrange(12, 12 + frame.len() as int) =~= frame);
    assert(b.subrange(12 + frame.len() as int, b.len() as int) =~= rest);
}

proof fn lemma_generated_device_index(slaves: Seq<TemplateSlave>, k: nat)
    requires
        k <= slaves.len(),
        slaves.len() <= 0xFFFF,
        forall|i: int| 0 <= i < slaves.len() ==> #[trigger] slaves[i].slave_id == i + 1,
    ensures
        forall|id: u16| #[trigger]
            spec_device_index(slaves, k).contains_key(id) <==> 1 <= id <= k,
        forall|id: u16|
            1 <= id <= k ==> #[trigger] spec_device_index(slaves, k)[id] == id - 1,
    decreases k,
{
    if k > 0 {
        lemma_generated_device_index(slaves, (k - 1) as nat);
        let prev = spec_device_index(slaves, (k - 1) as nat);
        let cur = spec_device_index(slaves, k);
        assert(slaves[k - 1].slave_id == k);
        assert(cur == prev.insert(k as u16, (k - 1) as usize));
        assert forall|id: u16| #[trigger] cur.contains_key(id) <==> 1 <= id <= k by {
            if id != k {
                assert(cur.contains_key(id) == prev.contains_key(id));
            }
        }
        assert forall|id: u16| 1 <= id <= k implies #[trigger] cur[id] == id - 1 by {
            if id != k {
                assert(cur[id] == prev[id]);
            }
        }
    }
}

/// The template that the template command writes, once loaded, names each
/// slave it lists by its number (when there are at most 65535 of them): the
/// device of address `id` is example slave `id` for `1 <= id <= count`, and
/// no other address has one.
pub proof fn law_generated_template_lookup(slaves: Seq<TemplateSlave>, id: u16)
    requires
        slaves.len() <= 0xFFFF,
        forall|i: int| 0 <= i < slaves.len() ==> #[trigger] generated_slave(slaves[i], (i + 1) as nat),
    ensures
        match spec_find_device(slaves, id) {
            Some(d) => 1 <= id <= slaves.len() && d == slaves[id - 1] && generated_slave(d, id as nat),
            None => id == 0 || id > slaves.len(),
        },
{
    assert forall|i: int| 0 <= i < slaves.len() implies #[trigger] slaves[i].slave_id == i + 1 by {
        assert(generated_slave(slaves[i], (i + 1) as nat));
    }
    lemma_generated_device_index(slaves, slaves.len());
    if 1 <= id <= slaves.len() {
        let i: int = id - 1;
        assert(generated_slave(slaves[i], (i + 1) as nat));
    }
}

/// What every decoded datagram satisfies: it is a fault exactly when it
/// addresses the AL error code register with at least four data bytes; a
/// fault carries the code read from its first four data bytes and the AL
/// error text of that code, anything else neither; and a datagram is read
/// either as a mailbox or as process data, never as both.
pub open spec fn decoded_datagram_consistent(dg: ParsedDatagramView) -> bool {
    &&& dg.is_fault == (dg.header.register_offset == AL_ERROR_CODE_REG && dg.data.len() >= 4)
    &&& dg.data.len() == dg.header.data_length
    &&& if dg.is_fault {
        &&& dg.fault_code == Some(le32(dg.data[0], dg.data[1], dg.data[2], dg.data[3]))
        &&& dg.fault_description == Some(spec_al_error_text(dg.fault_code->Some_0))
    } else {
        dg.fault_code is None && dg.fault_description is None
    }
    &&& !(dg.mailbox is Some && dg.pdo is Some)
}

/// Every datagram that decoding gives is consistent: fault flag, code and
/// description agree with the AL error code register and its text, and no
/// datagram is both a mailbox and process data.
pub proof fn law_decoded_datagrams_consistent(d: Seq<u8>, offset: nat, end: nat)
    ensures
        spec_parse_datagrams(d, offset, end) matches Ok(dgs) ==> forall|i: int|
            0 <= i < dgs.len() ==> decoded_datagram_consistent(#[trigger] dgs[i]),
    decreases end - offset,
{
    if offset + 10 < end && end <= d.len() {
        let sl = d.subrange(offset as int, end as int);
        crate::ethercat_parser::lemma_datagram_consumed(sl);
        reveal(spec_datagram);
        match spec_parse_datagram(sl) {
            Ok((dg, n)) => {
                law_decoded_datagrams_consistent(d, offset + n, end);
                match spec_parse_datagrams(d, offset + n, end) {
                    Ok(rest) => {
                        let all = seq![dg] + rest;
                        assert forall|i: int| 0 <= i < all.len() implies decoded_datagram_consistent(
                            #[trigger] all[i],
                        ) by {
                            if i > 0 {
                                assert(all[i] == rest[i - 1]);
                            }
                        }
                    },
                    Err(_) => {},
                }
            },
            Err(_) => {},
        }
    }
}


/// A generated frame's headers decode, announce one datagram per slave
/// (modulo the 7-bit field), and the frame fits a raw record.
proof fn lemma_generated_frame_facts(
    d: Seq<u8>,
    slaves: u16,
    frame_idx: u32,
    include_faults: bool,
    codes: Seq<u32>,
)
    requires
        is_generated_frame(d, slaves, frame_idx, include_faults, codes),
    ensures
        spec_header_error(d) is None,
        d[17] % 128 == slaves % 128,
        d.len() <= u32::MAX,
{
    let (dest, src, wcs) = choose|dest: Seq<u8>, src: Seq<u8>, wcs: Seq<u16>|
        dest.len() == 6 && src.len() == 6 && dest[0] == 0x01 && wcs.len() == slaves
            && counters_in_range(wcs) && d == #[trigger] spec_generated_frame(
            dest,
            src,
            slaves,
            frame_idx,
            include_faults,
            codes,
            wcs,
        );
    law_generated_frame_header(dest, src, slaves, frame_idx, include_faults, codes, wcs);
    lemma_generated_len(slaves, frame_idx, include_faults, codes, wcs, slaves as nat);
}

/// A sample capture file read record by record gives its frames back in
/// order: record `i` of `n`, when frame `i` is a generated frame (as every
/// frame of `generate_capture` is), is that frame (whose headers decode,
/// with one datagram announced per slave modulo the 7-bit field), stamped
/// `spec_capture_ts(i)` and taking exactly its bytes, so that the records
/// after it remain; after the last record reading ends cleanly.
#[verifier::spinoff_prover]
pub proof fn law_generated_capture_reads_back(
    frames: Seq<Seq<u8>>,
    n: nat,
    i: nat,
    slaves: u16,
    include_faults: bool,
    codes: Seq<u32>,
)
    requires
        frames.len() == n,
        i <= n,
        i < n ==> is_generated_frame(frames[i as int], slaves, i as u32, include_faults, codes),
    ensures
        i == n ==> spec_raw_record(spec_capture_from(frames, i, n)) == (RecordOutcome::End, 0nat),
        i < n ==> {
            let b = spec_capture_from(frames, i, n);
            let d = frames[i as int];
            &&& spec_header_error(d) is None
            &&& d[17] % 128 == slaves % 128
            &&& spec_raw_record(b) == (
                RecordOutcome::Frame {
                    timestamp_ns: spec_capture_ts(i as int),
                    frame_length: d.len(),
                    data: d,
                },
                12 + d.len(),
            )
            &&& b.subrange(12 + d.len() as int, b.len() as int) == spec_capture_from(frames, i + 1, n)
        },
{
    if i == n {
        assert(spec_capture_from(frames, i, n) =~= Seq::<u8>::empty());
    } else {
        let d = frames[i as int];
        lemma_generated_frame_facts(d, slaves, i as u32, include_faults, codes);
        let rest = spec_capture_from(frames, i + 1, n);
        let rec = spec_raw_record_bytes(spec_capture_ts(i as int), d);
        lemma_capture_step(frames, n, i);
        law_raw_record_read_back(spec_capture_ts(i as int), d, rest);
        assert(spec_capture_from(frames, i, n).subrange(12 + d.len() as int, spec_capture_from(frames, i, n).len() as int) =~= rest);
    }
}

/// Records `i..n` are record `i` followed by records `i+1..n`, and record
/// `i` takes twelve bytes more than its frame.
proof fn lemma_capture_step(frames: Seq<Seq<u8>>, n: nat, i: nat)
    requires
        i < n,
    ensures
        spec_capture_from(frames, i, n) == spec_raw_record_bytes(spec_capture_ts(i as int), frames[i as int])
            + spec_capture_from(frames, i + 1, n),
        spec_raw_record_bytes(spec_capture_ts(i as int), frames[i as int]).len() == 12 + frames[i as int].len(),
{
}

/// Reading the fault codes of two lists one after the other gives the codes
/// of the first list followed by those of the second; a list never gives
/// more codes than it has entries.
pub proof fn law_fault_codes_concatenate(a: Seq<Seq<char>>, b: Seq<Seq<char>>)
    ensures
        spec_parse_fault_codes(a + b) == spec_parse_fault_codes(a) + spec_parse_fault_codes(b),
        spec_parse_fault_codes(a).len() <= a.len(),
    decreases b.len(),
{
    lemma_fault_codes_len(a);
    if b.len() == 0 {
        assert(a + b =~= a);
        assert(spec_parse_fault_codes(a) + spec_parse_fault_codes(b) =~= spec_parse_fault_codes(a));
    } else {
        law_fault_codes_concatenate(a, b.drop_last());
        assert((a + b).drop_last() =~= a + b.drop_last());
        assert((a + b).last() == b.last());
        let pa = spec_parse_fault_codes(a);
        let pb = spec_parse_fault_codes(b.drop_last());
        match spec_fault_code(b.last()) {
            Some(v) => {
                assert((pa + pb).push(v) =~= pa + pb.push(v));
            },
            None => {},
        }
    }
}

proof fn lemma_fault_codes_len(a: Seq<Seq<char>>)
    ensures
        spec_parse_fault_codes(a).len() <= a.len(),
    decreases a.len(),
{
    if a.len() > 0 {
        lemma_fault_codes_len(a.drop_last());
    }
}

/// Which slave the device index of the first `i` slaves keeps for an address:
/// one exactly when some of them has that address, and then the last of them.
proof fn lemma_device_index_last(slaves: Seq<TemplateSlave>, i: nat, id: u16)
    requires
        i <= slaves.len(),
        slaves.len() <= usize::MAX,
    ensures
        spec_device_index(slaves, i).contains_key(id) <==> exists|k: int|
            0 <= k < i && #[trigger] slaves[k].slave_id == id,
        spec_device_index(slaves, i).contains_key(id) ==> {
            let j = spec_device_index(slaves, i)[id] as int;
            &&& 0 <= j < i
            &&& slaves[j].slave_id == id
            &&& forall|k: int| j < k < i ==> #[trigger] slaves[k].slave_id != id
        },
    decreases i,
{
    if i > 0 {
        lemma_device_index_last(slaves, (i - 1) as nat, id);
        if slaves[i - 1].slave_id != id {
            if exists|k: int| 0 <= k < i && #[trigger] slaves[k].slave_id == id {
                let k = choose|k: int| 0 <= k < i && #[trigger] slaves[k].slave_id == id;
                assert(k < i - 1);
            }
        }
    }
}

/// Looking up an address in a template gives the last slave that the
/// template lists with that address, and nothing when it lists none. Since
/// a converter looks addresses up in the template it holds, and loading a
/// template replaces the one held before, nothing of an earlier template
/// answers after a load.
pub proof fn law_device_lookup_last_wins(slaves: Seq<TemplateSlave>, id: u16)
    requires
        slaves.len() <= usize::MAX,
    ensures
        match spec_find_device(slaves, id) {
            Some(d) => exists|j: int|
                0 <= j < slaves.len() && #[trigger] slaves[j] == d && d.slave_id == id && forall|k: int|
                    j < k < slaves.len() ==> #[trigger] slaves[k].slave_id != id,
            None => forall|k: int| 0 <= k < slaves.len() ==> #[trigger] slaves[k].slave_id != id,
        },
{
    lemma_device_index_last(slaves, slaves.len(), id);
    let m = spec_device_index(slaves, slaves.len());
    if m.contains_key(id) {
        let j = m[id] as int;
        assert(slaves[j] == slaves[j]);
    }
}

/// The outcomes of reading up to `k` records of a raw capture one after
/// another from `b`: each read takes its record's bytes; reading stops after
/// the end or a failure.
pub open spec fn spec_read_records(b: Seq<u8>, k: nat) -> Seq<RecordOutcome>
    decreases k,
{
    if k == 0 {
        Seq::empty()
    } else {
        let (o, used) = spec_raw_record(b);
        match o {
            RecordOutcome::Frame { .. } => seq![o] + spec_read_records(
                b.subrange(used as int, b.len() as int),
                (k - 1) as nat,
            ),
            _ => seq![o],
        }
    }
}

/// Frame `i` of a sample capture as read back.
pub open spec fn capture_frame_outcome(frames: Seq<Seq<u8>>, i: int) -> RecordOutcome {
    RecordOutcome::Frame { timestamp_ns: spec_capture_ts(i), frame_length: frames[i].len(), data: frames[i] }
}

proof fn lemma_capture_reads_from(
    frames: Seq<Seq<u8>>,
    n: nat,
    i: nat,
    slaves: u16,
    include_faults: bool,
    codes: Seq<u32>,
)
    requires
        frames.len() == n,
        i <= n,
        forall|j: int| i <= j < n ==> #[trigger] is_generated_frame(frames[j], slaves, j as u32, include_faults, codes),
    ensures
        spec_read_records(spec_capture_from(frames, i, n), (n - i + 1) as nat) == Seq::new(
            (n - i) as nat,
            |j: int| capture_frame_outcome(frames, i + j),
        ).push(RecordOutcome::End),
    decreases n - i,
{
    law_generated_capture_reads_back(frames, n, i, slaves, include_faults, codes);
    let b = spec_capture_from(frames, i, n);
    if i == n {
        assert(Seq::new(0nat, |j: int| capture_frame_outcome(frames, i + j)).push(RecordOutcome::End) =~= seq![
            RecordOutcome::End,
        ]);
    } else {
        lemma_capture_reads_from(frames, n, i + 1, slaves, include_faults, codes);
        let rest = Seq::new((n - i - 1) as nat, |j: int| capture_frame_outcome(frames, i + 1 + j)).push(
            RecordOutcome::End,
        );
        assert(spec_read_records(b, (n - i + 1) as nat) == seq![capture_frame_outcome(frames, i as int)]
            + spec_read_records(spec_capture_from(frames, i + 1, n), (n - i) as nat));
        assert(seq![capture_frame_outcome(frames, i as int)] + rest =~= Seq::new(
            (n - i) as nat,
            |j: int| capture_frame_outcome(frames, i + j),
        ).push(RecordOutcome::End));
    }
}

/// A sample capture of `n` generated frames, read record after record from
/// its start, gives exactly its `n` frames in order, frame `i` stamped
/// `spec_capture_ts(i)` with its own length and bytes, and then the end.
pub proof fn law_generated_capture_reads_all(
    frames: Seq<Seq<u8>>,
    n: nat,
    slaves: u16,
    include_faults: bool,
    codes: Seq<u32>,
)
    requires
        frames.len() == n,
        forall|i: int| 0 <= i < n ==> #[trigger] is_generated_frame(frames[i], slaves, i as u32, include_faults, codes),
    ensures
        spec_read_records(spec_capture_from(frames, 0, n), n + 1) == Seq::new(
            n,
            |i: int| capture_frame_outcome(frames, i),
        ).push(RecordOutcome::End),
{
    lemma_capture_reads_from(frames, n, 0, slaves, include_faults, codes);
    assert(Seq::new(n, |j: int| capture_frame_outcome(frames, 0 + j)) =~= Seq::new(
        n,
        |i: int| capture_frame_outcome(frames, i),
    ));
}

/// Records written one after another for the frames `ds` with the
/// timestamps `ts`, from record `i` on.
pub open spec fn spec_records_from(ts: Seq<u64>, ds: Seq<Seq<u8>>, i: nat) -> Seq<u8>
    decreases ds.len() - i,
{
    if i >= ds.len() {
        Seq::empty()
    } else {
        spec_raw_record_bytes(ts[i as int], ds[i as int]) + spec_records_from(ts, ds, i + 1)
    }
}

/// Records written one after another and piped to standard input come back
/// in order: when the buffer holds records `i..` (two of them, or any
/// number), it announces frame `i`'s size and timestamp and holds frame `i`,
/// and taking that record leaves exactly records `i+1..`; once the last is
/// taken the buffer is empty, so that the stream's end ends reading cleanly.
pub proof fn law_stdin_records_read_back(ts: Seq<u64>, ds: Seq<Seq<u8>>, i: nat)
    requires
        ts.len() == ds.len(),
        i <= ds.len(),
        forall|j: int| 0 <= j < ds.len() ==> #[trigger] ds[j].len() <= u32::MAX,
    ensures
        i == ds.len() ==> spec_records_from(ts, ds, i) == Seq::<u8>::empty(),
        i < ds.len() ==> ({
            let b = spec_records_from(ts, ds, i);
            let d = ds[i as int];
            &&& b.len() >= 12 + d.len()
            &&& crate::ethercat_parser::le32(b[0], b[1], b[2], b[3]) == d.len()
            &&& crate::ethercat_parser::le64(b.subrange(4, 12)) == ts[i as int]
            &&& b.subrange(12, 12 + d.len() as int) == d
            &&& b.subrange(12 + d.len() as int, b.len() as int) == spec_records_from(ts, ds, i + 1)
        }),
{
    if i < ds.len() {
        let d = ds[i as int];
        assert(d.len() <= u32::MAX);
        law_stdin_record_read_back(ts[i as int], d, spec_records_from(ts, ds, i + 1));
    }
}

/// The number of data bytes an expedited SDO with its size indicated carries:
/// four less the unused-byte count in bits 2-3 of the command byte.
pub open spec fn expedited_size(c: u8) -> int {
    4 - ((c >> 2u8) & 3u8) as int
}

/// An SDO of at least ten bytes whose command byte `c = d[1]` has the
/// expedited (bit 1) and size-indicated (bit 0) flags set carries as data the
/// bytes from offset 8 on, as many as `expedited_size(c)` says (or up to the
/// end of the payload, when it ends first); a full payload carries exactly
/// `expedited_size(c)` of them.
pub proof fn law_expedited_sdo_size(d: Seq<u8>)
    requires
        d.len() >= 10,
        (d[1] >> 1u8) & 1u8 == 1u8,
        d[1] & 1u8 == 1u8,
    ensures
        crate::ethercat_parser::spec_parse_sdo(d) is Ok,
        crate::ethercat_parser::spec_parse_sdo(d)->Ok_0.data == d.subrange(
            8,
            if 8 + expedited_size(d[1]) <= d.len() {
                8 + expedited_size(d[1])
            } else {
                d.len() as int
            },
        ),
        d.len() >= 12 ==> crate::ethercat_parser::spec_parse_sdo(d)->Ok_0.data.len() == expedited_size(d[1]),
{
    let c = d[1];
    assert((c >> 1u8) & 1u8 == 1u8 ==> (c / 2) % 2 == 1) by (bit_vector);
    assert(c & 1u8 == 1u8 ==> c % 2 == 1) by (bit_vector);
    assert((c >> 2u8) & 3u8 == (c / 4) % 4) by (bit_vector);
    assert((c >> 2u8) & 3u8 <= 3) by (bit_vector);
}

/// Bit `bo` of `d` as a bool register reads it: 1 for true, 0 for false.
pub open spec fn bool_register_bit(d: Seq<u8>, bo: nat) -> int {
    match crate::pdo_converter::spec_convert_value(crate::pdo_converter::DataKind::Bool, d, bo).0 {
        crate::PdoValueView::Bool(b) => if b {
            1
        } else {
            0
        },
        _ => -1,
    }
}

proof fn lemma_bool_register_bit(d: Seq<u8>, i: nat, k: nat)
    requires
        i < d.len(),
        k < 8,
    ensures
        bool_register_bit(d, 8 * i + k) == ((d[i as int] >> (k as u8)) & 1u8) as int,
        crate::pdo_converter::spec_convert_value(crate::pdo_converter::DataKind::Bool, d, 8 * i + k).1 == 1,
{
    let bo: nat = 8 * i + k;
    assert(bo / 8 == i && bo % 8 == k);
    let b = d[i as int];
    let kk = k as u8;
    assert((b >> kk) & 1u8 <= 1u8) by (bit_vector);
}

/// Bool registers read single bits: the eight bool registers at bit offsets
/// `8i .. 8i+7` take one bit each, and, weighted by `2^k` for offset
/// `8i + k`, add up to byte `i` itself (so two bool registers over the byte
/// `0x02` read false, then true).
pub proof fn law_bool_registers_recompose_byte(d: Seq<u8>, i: nat)
    requires
        i < d.len(),
    ensures
        forall|k: nat|
            k < 8 ==> #[trigger] crate::pdo_converter::spec_convert_value(
                crate::pdo_converter::DataKind::Bool,
                d,
                8 * i + k,
            ).1 == 1,
        bool_register_bit(d, 8 * i) + 2 * bool_register_bit(d, 8 * i + 1) + 4 * bool_register_bit(d, 8 * i + 2)
            + 8 * bool_register_bit(d, 8 * i + 3) + 16 * bool_register_bit(d, 8 * i + 4) + 32
            * bool_register_bit(d, 8 * i + 5) + 64 * bool_register_bit(d, 8 * i + 6) + 128
            * bool_register_bit(d, 8 * i + 7) == d[i as int],
{
    assert forall|k: nat| k < 8 implies #[trigger] crate::pdo_converter::spec_convert_value(
        crate::pdo_converter::DataKind::Bool,
        d,
        8 * i + k,
    ).1 == 1 by {
        lemma_bool_register_bit(d, i, k);
    }
    lemma_bool_register_bit(d, i, 0);
    lemma_bool_register_bit(d, i, 1);
    lemma_bool_register_bit(d, i, 2);
    lemma_bool_register_bit(d, i, 3);
    lemma_bool_register_bit(d, i, 4);
    lemma_bool_register_bit(d, i, 5);
    lemma_bool_register_bit(d, i, 6);
    lemma_bool_register_bit(d, i, 7);
    assert(8 * i + 0 == 8 * i);
    let b = d[i as int];
    assert(b == ((b >> 0u8) & 1u8) + 2 * ((b >> 1u8) & 1u8) + 4 * ((b >> 2u8) & 1u8) + 8 * ((b >> 3u8) & 1u8)
        + 16 * ((b >> 4u8) & 1u8) + 32 * ((b >> 5u8) & 1u8) + 64 * ((b >> 6u8) & 1u8) + 128 * ((b >> 7u8)
        & 1u8)) by (bit_vector);
}

/// A mailbox-type criterion keeps only datagrams that carry a mailbox of a
/// listed type: a datagram without a mailbox never meets it.
pub proof fn law_mailbox_type_criterion(f: FilterOptions, dg: ParsedDatagramView)
    requires
        f.msg_types@.len() > 0,
    ensures
        spec_matches_datagram(f, dg) ==> dg.mailbox is Some && f.msg_types@.contains(dg.mailbox->Some_0.msg_type),
        dg.mailbox is None ==> !spec_matches_datagram(f, dg),
{
}

/// Under a mailbox-type criterion, a frame none of whose datagrams carries a
/// mailbox is not selected, and filtering gives nothing for it.
pub proof fn law_frame_without_mailboxes_is_dropped(f: FilterOptions, frame: EthercatFrameView)
    requires
        f.msg_types@.len() > 0,
        forall|i: int| 0 <= i < frame.datagrams.len() ==> (#[trigger] frame.datagrams[i]).mailbox is None,
    ensures
        !spec_matches_frame(f, frame),
        spec_filter_frame(f, frame) is None,
{
    assert forall|i: int| 0 <= i < frame.datagrams.len() implies !#[trigger] spec_matches_datagram(
        f,
        frame.datagrams[i],
    ) by {
        law_mailbox_type_criterion(f, frame.datagrams[i]);
    }
}

/// The datagrams that carry a mailbox of type `t`.
pub open spec fn carries_mailbox(t: crate::MailboxType) -> spec_fn(ParsedDatagramView) -> bool {
    |d: ParsedDatagramView| d.mailbox matches Some(m) && m.msg_type == t
}

proof fn lemma_tally_counts_mailboxes(dgs: Seq<ParsedDatagramView>, t: crate::MailboxType)
    ensures
        crate::ethercat_parser::mailbox_tally(dgs, t) == dgs.filter(carries_mailbox(t)).len(),
    decreases dgs.len(),
{
    if dgs.len() > 0 {
        lemma_tally_counts_mailboxes(dgs.drop_last(), t);
        let p = carries_mailbox(t);
        reveal(Seq::filter);
        assert(dgs.filter(p) == if p(dgs.last()) {
            dgs.drop_last().filter(p).push(dgs.last())
        } else {
            dgs.drop_last().filter(p)
        });
    }
}

/// Counting a frame raises each mailbox counter by exactly the number of its
/// datagrams that carry a mailbox of that type: CoE by the CoE mailboxes, FoE
/// by the FoE mailboxes, EoE by the EoE mailboxes (a mailbox of one type
/// never raises another type's counter).
pub proof fn law_stats_count_mailboxes_by_type(
    old: crate::ParseStats,
    new: crate::ParseStats,
    frame: EthercatFrameView,
)
    requires
        crate::ethercat_parser::stats_absorbed(old, new, frame),
    ensures
        new.coe_messages == old.coe_messages + frame.datagrams.filter(carries_mailbox(crate::MailboxType::CoE)).len(),
        new.foe_messages == old.foe_messages + frame.datagrams.filter(carries_mailbox(crate::MailboxType::FoE)).len(),
        new.eoe_messages == old.eoe_messages + frame.datagrams.filter(carries_mailbox(crate::MailboxType::EoE)).len(),
{
    lemma_tally_counts_mailboxes(frame.datagrams, crate::MailboxType::CoE);
    lemma_tally_counts_mailboxes(frame.datagrams, crate::MailboxType::FoE);
    lemma_tally_counts_mailboxes(frame.datagrams, crate::MailboxType::EoE);
}

/// Fields joined with commas.
pub open spec fn join_commas(fields: Seq<Seq<char>>) -> Seq<char>
    decreases fields.len(),
{
    if fields.len() == 0 {
        Seq::empty()
    } else if fields.len() == 1 {
        fields[0]
    } else {
        join_commas(fields.drop_last()) + seq![','] + fields.last()
    }
}

proof fn lemma_decimal_has_no_comma(v: nat)
    ensures
        forall|j: int| 0 <= j < crate::text::spec_decimal(v).len() ==> #[trigger] crate::text::spec_decimal(v)[j] != ',',
    decreases v,
{
    let c = crate::text::dec_char(v % 10);
    assert(c as int == 48 + v % 10);
    assert(c != ',');
    if v >= 10 {
        lemma_decimal_has_no_comma(v / 10);
        let prev = crate::text::spec_decimal(v / 10);
        assert(crate::text::spec_decimal(v) == prev.push(c));
        assert forall|j: int| 0 <= j < prev.len() + 1 implies #[trigger] prev.push(c)[j] != ',' by {
            if j < prev.len() {
                assert(prev.push(c)[j] == prev[j]);
            }
        }
    } else {
        assert(crate::text::spec_decimal(v) == seq![c]);
    }
}

/// The summary line holds seven comma-separated fields, none of which holds
/// a comma: the decimal counts of frames, datagrams, CoE, FoE and EoE
/// messages, PDO updates and faults, in that order.
pub proof fn law_summary_line_fields(s: crate::ParseStats)
    ensures
        crate::output::spec_summary_line(s) == join_commas(
            seq![
                crate::text::spec_decimal(s.total_frames as nat),
                crate::text::spec_decimal(s.total_datagrams as nat),
                crate::text::spec_decimal(s.coe_messages as nat),
                crate::text::spec_decimal(s.foe_messages as nat),
                crate::text::spec_decimal(s.eoe_messages as nat),
                crate::text::spec_decimal(s.pdo_updates as nat),
                crate::text::spec_decimal(s.fault_count as nat),
            ],
        ),
        forall|v: nat, j: int| 0 <= j < crate::text::spec_decimal(v).len() ==> #[trigger] crate::text::spec_decimal(v)[j] != ',',
{
    let f = seq![
        crate::text::spec_decimal(s.total_frames as nat),
        crate::text::spec_decimal(s.total_datagrams as nat),
        crate::text::spec_decimal(s.coe_messages as nat),
        crate::text::spec_decimal(s.foe_messages as nat),
        crate::text::spec_decimal(s.eoe_messages as nat),
        crate::text::spec_decimal(s.pdo_updates as nat),
        crate::text::spec_decimal(s.fault_count as nat),
    ];
    assert(f.drop_last().drop_last().drop_last().drop_last().drop_last().drop_last() =~= seq![f[0]]);
    assert(f.drop_last().drop_last().drop_last().drop_last().drop_last() =~= seq![f[0], f[1]]);
    assert(f.drop_last().drop_last().drop_last().drop_last() =~= seq![f[0], f[1], f[2]]);
    assert(f.drop_last().drop_last().drop_last() =~= seq![f[0], f[1], f[2], f[3]]);
    assert(f.drop_last().drop_last() =~= seq![f[0], f[1], f[2], f[3], f[4]]);
    assert(f.drop_last() =~= seq![f[0], f[1], f[2], f[3], f[4], f[5]]);
    reveal_with_fuel(join_commas, 8);
    assert(crate::output::spec_summary_line(s) =~= join_commas(f));
    assert forall|v: nat, j: int| 0 <= j < crate::text::spec_decimal(v).len() implies #[trigger] crate::text::spec_decimal(v)[j] != ',' by {
        lemma_decimal_has_no_comma(v);
    }
}

/// An SDO of at least ten bytes without both the expedited and the
/// size-indicated flag carries as data everything from offset 8 on. Its
/// index is bytes 2-3 (little-endian), its sub-index byte 4; it is a request
/// exactly when the service in the low nibble of byte 0 is 1; and it carries
/// an abort code exactly when bit 7 of byte 0 is set, the code being bytes
/// 4-7 (little-endian).
pub proof fn law_sdo_fields(d: Seq<u8>)
    requires
        d.len() >= 10,
    ensures
        crate::ethercat_parser::spec_parse_sdo(d) is Ok,
        !((d[1] >> 1u8) & 1u8 == 1u8 && d[1] & 1u8 == 1u8) ==> crate::ethercat_parser::spec_parse_sdo(d)->Ok_0.data
            == d.subrange(8, d.len() as int),
        crate::ethercat_parser::spec_parse_sdo(d)->Ok_0.index == d[2] + 256 * d[3],
        crate::ethercat_parser::spec_parse_sdo(d)->Ok_0.subindex == d[4],
        crate::ethercat_parser::spec_parse_sdo(d)->Ok_0.request == (d[0] & 15u8 == 1u8),
        crate::ethercat_parser::spec_parse_sdo(d)->Ok_0.error_code is Some == ((d[0] >> 7u8) & 1u8 == 1u8),
        crate::ethercat_parser::spec_parse_sdo(d)->Ok_0.error_code is Some ==> crate::ethercat_parser::spec_parse_sdo(
            d,
        )->Ok_0.error_code->Some_0 == d[4] + 256 * d[5] + 65536 * d[6] + 16777216 * d[7],
{
    let c = d[1];
    let b = d[0];
    assert((c >> 1u8) & 1u8 == 1u8 <==> (c / 2) % 2 == 1) by (bit_vector);
    assert(c & 1u8 == 1u8 <==> c % 2 == 1) by (bit_vector);
    assert(b & 15u8 == b % 16) by (bit_vector);
    assert((b >> 7u8) & 1u8 == 1u8 <==> b >= 128) by (bit_vector);
}

/// Integer registers are little-endian and share their bits: an unsigned
/// 16-bit register at byte `i` is the 8-bit registers at `i` and `i+1`,
/// low byte first; an unsigned 32-bit register is the 16-bit registers at
/// `i` and `i+2`, low half first; and a signed register holds the same
/// bits as the unsigned one of its width (two's complement). Each takes its
/// width in bits.
pub proof fn law_integer_registers_little_endian(d: Seq<u8>, i: nat)
    requires
        i + 4 <= d.len(),
    ensures
        ({
            let cv = |k: crate::pdo_converter::DataKind, j: nat| crate::pdo_converter::spec_convert_value(k, d, 8 * j);
            &&& cv(crate::pdo_converter::DataKind::Uint8, i).0 == crate::PdoValueView::Uint8(d[i as int])
            &&& cv(crate::pdo_converter::DataKind::Uint16, i).0 == crate::PdoValueView::Uint16(
                (d[i as int] + 256 * d[i + 1 as int]) as u16,
            )
            &&& cv(crate::pdo_converter::DataKind::Uint16, i).1 == 16
            &&& cv(crate::pdo_converter::DataKind::Uint32, i).1 == 32
            &&& cv(crate::pdo_converter::DataKind::Int16, i).1 == 16
            &&& cv(crate::pdo_converter::DataKind::Int32, i).1 == 32
            &&& (cv(crate::pdo_converter::DataKind::Uint32, i).0 matches crate::PdoValueView::Uint32(w)
                && cv(crate::pdo_converter::DataKind::Uint16, i).0 matches crate::PdoValueView::Uint16(lo)
                && cv(crate::pdo_converter::DataKind::Uint16, i + 2).0 matches crate::PdoValueView::Uint16(hi)
                && w == lo + 65536 * hi)
            &&& (cv(crate::pdo_converter::DataKind::Int16, i).0 matches crate::PdoValueView::Int16(s)
                && cv(crate::pdo_converter::DataKind::Uint16, i).0 matches crate::PdoValueView::Uint16(u)
                && (s + 65536) % 65536 == u)
            &&& (cv(crate::pdo_converter::DataKind::Int32, i).0 matches crate::PdoValueView::Int32(s)
                && cv(crate::pdo_converter::DataKind::Uint32, i).0 matches crate::PdoValueView::Uint32(u)
                && (s + 4294967296) % 4294967296 == u)
        }),
{
    assert((8 * i) / 8 == i);
    assert((8 * (i + 2)) / 8 == i + 2);
    let b0 = d[i as int];
    let b1 = d[i + 1 as int];
    let b2 = d[i + 2 as int];
    let b3 = d[i + 3 as int];
    let u16v = (b0 + 256 * b1) as u16;
    let u32v = (b0 + 256 * b1 + 65536 * b2 + 16777216 * b3) as u32;
    assert(b0 + 256 * b1 <= 65535);
    assert(b0 + 256 * b1 + 65536 * b2 + 16777216 * b3 <= 0xFFFF_FFFF);
    assert(u32v == u16v + 65536 * ((b2 + 256 * b3) as u16));
    assert((u16v as i16 + 65536) % 65536 == u16v) by (bit_vector);
    assert((u32v as i32 + 4294967296) % 4294967296 == u32v) by (bit_vector);
}

/// A filter keeps a datagram only when it meets every criterion that is set:
/// its slave address is listed, its command is listed, it reports a fault
/// whose code is listed, and it carries a mailbox whose type is listed; a
/// datagram that meets them all is kept.
pub proof fn law_filter_criteria(f: FilterOptions, dg: ParsedDatagramView)
    ensures
        spec_matches_datagram(f, dg) <==> {
            &&& (f.slave_ids@.len() > 0 ==> f.slave_ids@.contains(dg.header.slave_address))
            &&& (f.commands@.len() > 0 ==> f.commands@.contains(dg.header.command))
            &&& (f.fault_codes@.len() > 0 ==> dg.is_fault && dg.fault_code is Some && f.fault_codes@.contains(
                dg.fault_code->Some_0,
            ))
            &&& (f.msg_types@.len() > 0 ==> dg.mailbox is Some && f.msg_types@.contains(dg.mailbox->Some_0.msg_type))
        },
{
}

/// The datagrams that report a fault.
pub open spec fn reports_fault() -> spec_fn(ParsedDatagramView) -> bool {
    |d: ParsedDatagramView| d.is_fault
}

/// The datagrams that carry process data.
pub open spec fn carries_pdo() -> spec_fn(ParsedDatagramView) -> bool {
    |d: ParsedDatagramView| d.pdo is Some
}

/// The datagrams addressed to slave `s`.
pub open spec fn addressed_to(s: u16) -> spec_fn(ParsedDatagramView) -> bool {
    |d: ParsedDatagramView| d.header.slave_address == s
}

proof fn lemma_tallies_count(dgs: Seq<ParsedDatagramView>, s: u16)
    ensures
        crate::ethercat_parser::fault_tally(dgs) == dgs.filter(reports_fault()).len(),
        crate::ethercat_parser::pdo_tally(dgs) == dgs.filter(carries_pdo()).len(),
        crate::ethercat_parser::slave_tally(dgs, s) == dgs.filter(addressed_to(s)).len(),
    decreases dgs.len(),
{
    reveal(Seq::filter);
    if dgs.len() > 0 {
        lemma_tallies_count(dgs.drop_last(), s);
        let l = dgs.last();
        assert(dgs.filter(reports_fault()) == if reports_fault()(l) {
            dgs.drop_last().filter(reports_fault()).push(l)
        } else {
            dgs.drop_last().filter(reports_fault())
        });
        assert(dgs.filter(carries_pdo()) == if carries_pdo()(l) {
            dgs.drop_last().filter(carries_pdo()).push(l)
        } else {
            dgs.drop_last().filter(carries_pdo())
        });
        assert(dgs.filter(addressed_to(s)) == if addressed_to(s)(l) {
            dgs.drop_last().filter(addressed_to(s)).push(l)
        } else {
            dgs.drop_last().filter(addressed_to(s))
        });
    }
}

/// Counting a frame adds one frame, its datagrams, the datagrams that carry
/// process data, those that report a fault, and, for each slave, the
/// datagrams addressed to it.
pub proof fn law_stats_count_frame(old: crate::ParseStats, new: crate::ParseStats, frame: EthercatFrameView, s: u16)
    requires
        crate::ethercat_parser::stats_absorbed(old, new, frame),
    ensures
        new.total_frames == old.total_frames + 1,
        new.total_datagrams == old.total_datagrams + frame.datagrams.len(),
        new.pdo_updates == old.pdo_updates + frame.datagrams.filter(carries_pdo()).len(),
        new.fault_count == old.fault_count + frame.datagrams.filter(reports_fault()).len(),
        crate::ethercat_parser::count_or_zero(new.slave_counts@, s) == crate::ethercat_parser::count_or_zero(
            old.slave_counts@,
            s,
        ) + frame.datagrams.filter(addressed_to(s)).len(),
{
    lemma_tallies_count(frame.datagrams, s);
    assert(crate::ethercat_parser::count_or_zero(new.slave_counts@, s) == crate::ethercat_parser::count_or_zero(
        old.slave_counts@,
        s,
    ) + crate::ethercat_parser::slave_tally(frame.datagrams, s));
}

} // verus!
