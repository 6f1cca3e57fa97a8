//! Text renderings of decoded traffic: timestamps, MAC addresses, slave
//! labels, table rows, CSV fields and summary lines. Writing them out, and
//! colouring them, is left to the caller.

use crate::pdo_converter::{spec_find_device, spec_format_value, PdoConverter};
use crate::pretty::entry_keys;
use std::collections::HashMap;
use crate::text::{
    hex_padded, owned, push_char, spec_decimal, spec_hex_padded, u64_to_decimal,
};
use crate::{
    entries_view, spec_command_name, spec_mailbox_type_name, ParseStats, ParsedDatagram, ParsedDatagramView,
    PdoData, RegisterValue, RegisterValueView,
};
use vstd::prelude::*;

verus! {

/// Text that chrono gives a UTC time (seconds and nanoseconds since the
/// epoch) in the `%Y-%m-%dT%H:%M:%S%.9fZ` format, or nothing when the time is
/// out of its range.
pub uninterp spec fn spec_utc_text(secs: i64, nanos: u32) -> Option<Seq<char>>;

/// `chrono::NaiveDateTime::from_timestamp_opt`, taken as UTC and formatted
/// with `%Y-%m-%dT%H:%M:%S%.9fZ`; the text is named by `spec_utc_text`.
#[verifier::external_body]
#[allow(deprecated)]
fn utc_text(secs: i64, nanos: u32) -> (r: Option<String>)
    ensures
        match spec_utc_text(secs, nanos) {
            Some(t) => r is Some && r->Some_0@ == t,
            None => r is None,
        },
{
    match chrono::NaiveDateTime::from_timestamp_opt(secs, nanos) {
        Some(dt) => Some(
            chrono::DateTime::<chrono::Utc>::from_naive_utc_and_offset(dt, chrono::Utc).format(
                "%Y-%m-%dT%H:%M:%S%.9fZ",
            ).to_string(),
        ),
        None => None,
    }
}

/// The timestamp text for `ns` nanoseconds, given what the calendar
/// rendering gave: that text, or the count followed by `ns`.
pub open spec fn spec_timestamp_text(ns: u64, utc: Option<Seq<char>>) -> Seq<char> {
    match utc {
        Some(t) => t,
        None => spec_decimal(ns as nat) + seq!['n', 's'],
    }
}

/// The timestamp text for `ns` nanoseconds, given what the calendar
/// rendering gave.
pub fn timestamp_text(ns: u64, utc: Option<String>) -> (s: String)
    ensures
        s@ == spec_timestamp_text(
            ns,
            match utc {
                Some(t) => Some(t@),
                None => None,
            },
        ),
{
    match utc {
        Some(t) => t,
        None => {
            let mut s = u64_to_decimal(ns);
            push_char(&mut s, 'n');
            push_char(&mut s, 's');
            s
        },
    }
}

/// A timestamp in nanoseconds since the epoch as UTC calendar text with
/// nanoseconds, falling back to the plain count.
pub open spec fn spec_format_ts(ns: u64) -> Seq<char> {
    spec_timestamp_text(ns, spec_utc_text((ns / 1_000_000_000) as i64, (ns % 1_000_000_000) as u32))
}

/// Renders a timestamp in nanoseconds since the epoch as UTC calendar text.
pub fn format_ts(ns: u64) -> (s: String)
    ensures
        s@ == spec_format_ts(ns),
{
    let secs = ns / 1_000_000_000;
    let nanos = (ns % 1_000_000_000) as u32;
    timestamp_text(ns, utc_text(secs as i64, nanos))
}

/// Two lower-case hexadecimal digits of a byte.
pub open spec fn hex2(b: u8) -> Seq<char> {
    spec_hex_padded(b as nat, 2)
}

/// A MAC address as six colon-separated pairs of hexadecimal digits.
pub open spec fn spec_mac_text(m: Seq<u8>) -> Seq<char> {
    hex2(m[0]) + seq![':'] + hex2(m[1]) + seq![':'] + hex2(m[2]) + seq![':'] + hex2(m[3])
        + seq![':'] + hex2(m[4]) + seq![':'] + hex2(m[5])
}

/// Renders a MAC address as `aa:bb:cc:dd:ee:ff`.
pub fn format_mac(mac: &[u8; 6]) -> (s: String)
    ensures
        s@ == spec_mac_text(mac@),
{
    let mut s = hex_padded(mac[0] as u64, 2);
    let mut i: usize = 1;
    while i < 6
        invariant
            1 <= i <= 6,
            s@ == spec_mac_prefix(mac@, i as nat),
        decreases 6 - i,
    {
        push_char(&mut s, ':');
        let pair = hex_padded(mac[i] as u64, 2);
        s.append(pair.as_str());
        i = i + 1;
    }
    proof {
        reveal_with_fuel(spec_mac_prefix, 6);
    }
    s
}

/// The rendering of the first `n` bytes (at least one) of a MAC address.
pub open spec fn spec_mac_prefix(m: Seq<u8>, n: nat) -> Seq<char>
    decreases n,
{
    if n <= 1 {
        hex2(m[0])
    } else {
        spec_mac_prefix(m, (n - 1) as nat) + seq![':'] + hex2(m[n - 1])
    }
}

/// How a slave is labelled: its address, with the template's device name in
/// brackets when there is one.
pub open spec fn spec_slave_label(slaves: Seq<crate::TemplateSlave>, id: u16) -> Seq<char> {
    match spec_find_device(slaves, id) {
        Some(d) => spec_decimal(id as nat) + seq![' ', '('] + d.device_name@ + seq![')'],
        None => spec_decimal(id as nat),
    }
}

/// Labels a slave address with its device name from the template.
pub fn format_slave(id: u16, converter: &PdoConverter) -> (s: String)
    ensures
        s@ == spec_slave_label(converter.slaves(), id),
{
    let mut s = u64_to_decimal(id as u64);
    match converter.get_slave_device_name(id) {
        Some(name) => {
            push_char(&mut s, ' ');
            push_char(&mut s, '(');
            s.append(name);
            push_char(&mut s, ')');
            s
        },
        None => s,
    }
}

/// What a datagram carries, as shown in tables: the mailbox protocol, `PDO`,
/// or a dash.
pub open spec fn spec_mailbox_state(dg: ParsedDatagramView) -> Seq<char> {
    match dg.mailbox {
        Some(m) => spec_mailbox_type_name(m.msg_type),
        None => if dg.pdo is Some {
            seq!['P', 'D', 'O']
        } else {
            seq!['\u{2014}']
        },
    }
}

/// Says what a datagram carries: its mailbox protocol, `PDO`, or a dash.
pub fn format_mailbox_state(dg: &ParsedDatagram) -> (s: String)
    ensures
        s@ == spec_mailbox_state(dg@),
{
    match &dg.mailbox {
        Some(m) => owned(m.msg_type.to_str()),
        None => {
            let mut s = String::new();
            if dg.pdo.is_some() {
                push_char(&mut s, 'P');
                push_char(&mut s, 'D');
                push_char(&mut s, 'O');
            } else {
                push_char(&mut s, '\u{2014}');
            }
            s
        },
    }
}

/// A character that forces a CSV field into quotes.
pub open spec fn csv_special(c: char) -> bool {
    c == ',' || c == '"' || c == '\n'
}

/// A CSV field must be quoted.
pub open spec fn needs_quoting(s: Seq<char>) -> bool {
    exists|j: int| 0 <= j < s.len() && #[trigger] csv_special(s[j])
}

/// `s` with every double quote doubled.
pub open spec fn spec_double_quotes(s: Seq<char>) -> Seq<char>
    decreases s.len(),
{
    if s.len() == 0 {
        Seq::empty()
    } else {
        spec_double_quotes(s.drop_last()) + if s.last() == '"' {
            seq!['"', '"']
        } else {
            seq![s.last()]
        }
    }
}

/// A CSV field: as it is, or in quotes with its quotes doubled when it holds
/// a comma, a quote or a line break.
pub open spec fn spec_csv_escape(s: Seq<char>) -> Seq<char> {
    if needs_quoting(s) {
        seq!['"'] + spec_double_quotes(s) + seq!['"']
    } else {
        s
    }
}

/// Escapes a CSV field.
pub fn csv_escape(s: &str) -> (r: String)
    ensures
        r@ == spec_csv_escape(s@),
{
    let chars = crate::text::chars_of(s);
    let mut special = false;
    let mut doubled = String::new();
    let mut i: usize = 0;
    while i < chars.len()
        invariant
            i <= chars.len(),
            chars@ == s@,
            special == exists|j: int| 0 <= j < i && #[trigger] csv_special(s@[j]),
            doubled@ == spec_double_quotes(s@.take(i as int)),
        decreases chars.len() - i,
    {
        let c = chars[i];
        if c == ',' || c == '"' || c == '\n' {
            special = true;
        }
        if c == '"' {
            push_char(&mut doubled, '"');
        }
        push_char(&mut doubled, c);
        proof {
            assert(s@.take(i + 1).drop_last() =~= s@.take(i as int));
            assert(csv_special(s@[i as int]) == (c == ',' || c == '"' || c == '\n'));
        }
        i = i + 1;
    }
    proof {
        assert(s@.take(i as int) =~= s@);
    }
    if special {
        let mut r = String::new();
        push_char(&mut r, '"');
        r.append(doubled.as_str());
        push_char(&mut r, '"');
        r
    } else {
        owned(s)
    }
}

/// How a PDO entry is named in listings: its template name, or its index
/// and sub-index.
pub open spec fn spec_entry_label(r: RegisterValueView) -> Seq<char> {
    match r.name {
        Some(n) => n,
        None => seq!['0', 'x'] + spec_hex_padded(r.index as nat, 4) + seq![':'] + spec_decimal(
            r.subindex as nat,
        ),
    }
}

/// Names a PDO entry by its template name, or by `0x<index>:<subindex>`.
pub fn entry_label(r: &RegisterValue) -> (s: String)
    ensures
        s@ == spec_entry_label(r@),
{
    match &r.name {
        Some(n) => n.clone(),
        None => {
            let mut s = String::new();
            push_char(&mut s, '0');
            push_char(&mut s, 'x');
            let idx = hex_padded(r.index as u64, 4);
            s.append(idx.as_str());
            push_char(&mut s, ':');
            let sub = u64_to_decimal(r.subindex as u64);
            s.append(sub.as_str());
            s
        },
    }
}

/// `s` padded with spaces on the right up to `width` characters.
pub open spec fn spec_pad_right(s: Seq<char>, width: nat) -> Seq<char> {
    if s.len() >= width {
        s
    } else {
        s + Seq::new((width - s.len()) as nat, |i: int| ' ')
    }
}

/// Appends `s` to `out`, padded with spaces on the right up to `width`
/// characters (the `{:<width}` format).
pub(crate) fn push_padded(out: &mut String, s: &str, width: usize)
    ensures
        final(out)@ == old(out)@ + spec_pad_right(s@, width as nat),
{
    out.append(s);
    let n = s.unicode_len();
    if n < width {
        let mut i: usize = n;
        while i < width
            invariant
                n <= i <= width,
                n == s@.len(),
                out@ == old(out)@ + s@ + Seq::new((i - n) as nat, |k: int| ' '),
            decreases width - i,
        {
            push_char(out, ' ');
            i = i + 1;
            assert(out@ =~= old(out)@ + s@ + Seq::new((i - n) as nat, |k: int| ' '));
        }
    } else {
        assert(out@ =~= old(out)@ + s@);
    }
}

/// `0x` and four hexadecimal digits of a value (the `0x{:04x}` format).
pub open spec fn hex4(v: nat) -> Seq<char> {
    seq!['0', 'x'] + spec_hex_padded(v, 4)
}

/// Renders `0x{:04x}`.
pub(crate) fn format_hex4(v: u64) -> (s: String)
    ensures
        s@ == hex4(v as nat),
{
    let mut s = String::new();
    push_char(&mut s, '0');
    push_char(&mut s, 'x');
    let digits = hex_padded(v, 4);
    s.append(digits.as_str());
    s
}

/// The fault column of a table row.
pub open spec fn spec_fault_cell(dg: ParsedDatagramView) -> Seq<char> {
    if dg.is_fault {
        match dg.fault_code {
            Some(c) => hex4(c as nat),
            None => Seq::empty(),
        }
    } else {
        Seq::empty()
    }
}

/// One row of the table listing: timestamp, slave, command, register,
/// length, working counter, what the datagram carries and its fault code, in
/// columns of 26, 20, 6, 8, 6, 4, 6 and 6 characters separated by spaces.
pub open spec fn spec_table_row(ts: Seq<char>, slaves: Seq<crate::TemplateSlave>, dg: ParsedDatagramView) -> Seq<char> {
    spec_pad_right(ts, 26) + seq![' '] + spec_pad_right(spec_slave_label(slaves, dg.header.slave_address), 20)
        + seq![' '] + spec_pad_right(spec_command_name(dg.header.command), 6) + seq![' ']
        + spec_pad_right(hex4(dg.header.register_offset as nat), 8) + seq![' '] + spec_pad_right(
        spec_decimal(dg.header.data_length as nat),
        6,
    ) + seq![' '] + spec_pad_right(spec_decimal(dg.header.working_counter as nat), 4) + seq![' ']
        + spec_pad_right(spec_mailbox_state(dg), 6) + seq![' '] + spec_pad_right(
        spec_fault_cell(dg),
        6,
    )
}

/// One row of the table listing for a datagram of a frame captured at
/// `timestamp_ns`.
#[verifier::spinoff_prover]
#[verifier::rlimit(30)]
pub fn table_row(timestamp_ns: u64, dg: &ParsedDatagram, converter: &PdoConverter) -> (s: String)
    ensures
        s@ == spec_table_row(spec_format_ts(timestamp_ns), converter.slaves(), dg@),
{
    let ts = format_ts(timestamp_ns);
    let slave = format_slave(dg.header.slave_address, converter);
    let reg = format_hex4(dg.header.register_offset as u64);
    let len = u64_to_decimal(dg.header.data_length as u64);
    let wc = u64_to_decimal(dg.header.working_counter as u64);
    let state = format_mailbox_state(dg);
    let fault = if dg.is_fault {
        match dg.fault_code {
            Some(c) => format_hex4(c as u64),
            None => String::new(),
        }
    } else {
        String::new()
    };
    let mut s = String::new();
    push_padded(&mut s, ts.as_str(), 26);
    push_char(&mut s, ' ');
    push_padded(&mut s, slave.as_str(), 20);
    push_char(&mut s, ' ');
    push_padded(&mut s, dg.header.command.to_str(), 6);
    push_char(&mut s, ' ');
    push_padded(&mut s, reg.as_str(), 8);
    push_char(&mut s, ' ');
    push_padded(&mut s, len.as_str(), 6);
    push_char(&mut s, ' ');
    push_padded(&mut s, wc.as_str(), 4);
    push_char(&mut s, ' ');
    push_padded(&mut s, state.as_str(), 6);
    push_char(&mut s, ' ');
    push_padded(&mut s, fault.as_str(), 6);
    s
}

/// The header line of the CSV listing.
pub fn csv_header() -> (s: &'static str)
    ensures
        s@ == "timestamp_ns,slave_id,slave_name,command,register_offset,data_length,working_counter,mailbox_type,pdo_values,fault_flag,fault_code,fault_description"@,
{
    "timestamp_ns,slave_id,slave_name,command,register_offset,data_length,working_counter,mailbox_type,pdo_values,fault_flag,fault_code,fault_description"
}

/// The counters of a summary as one comma-separated line: frames,
/// datagrams, CoE, FoE and EoE messages, PDO updates, faults.
pub open spec fn spec_summary_line(s: ParseStats) -> Seq<char> {
    spec_decimal(s.total_frames as nat) + seq![','] + spec_decimal(s.total_datagrams as nat)
        + seq![','] + spec_decimal(s.coe_messages as nat) + seq![','] + spec_decimal(
        s.foe_messages as nat,
    ) + seq![','] + spec_decimal(s.eoe_messages as nat) + seq![','] + spec_decimal(
        s.pdo_updates as nat,
    ) + seq![','] + spec_decimal(s.fault_count as nat)
}

/// Appends a comma and the decimal rendering of `v`.
fn push_field(out: &mut String, v: u64)
    ensures
        final(out)@ == old(out)@ + seq![','] + spec_decimal(v as nat),
{
    push_char(out, ',');
    let d = u64_to_decimal(v);
    out.append(d.as_str());
}

/// The summary counters as one comma-separated line.
pub fn summary_line(stats: &ParseStats) -> (s: String)
    ensures
        s@ == spec_summary_line(*stats),
{
    let mut s = u64_to_decimal(stats.total_frames);
    push_field(&mut s, stats.total_datagrams);
    push_field(&mut s, stats.coe_messages);
    push_field(&mut s, stats.foe_messages);
    push_field(&mut s, stats.eoe_messages);
    push_field(&mut s, stats.pdo_updates);
    push_field(&mut s, stats.fault_count);
    s
}

/// `true` or `false`.
pub open spec fn spec_bool_text(b: bool) -> Seq<char> {
    if b {
        seq!['t', 'r', 'u', 'e']
    } else {
        seq!['f', 'a', 'l', 's', 'e']
    }
}

/// One line of the CSV listing for a datagram of a frame captured at
/// `timestamp_ns`, with the PDO values already joined into `pdo_values`:
/// timestamp, slave address, device name, command, register, length,
/// working counter, mailbox type, PDO values, fault flag, fault code and
/// fault description, the three free-text fields escaped.
pub open spec fn spec_csv_row(
    timestamp_ns: u64,
    slaves: Seq<crate::TemplateSlave>,
    dg: ParsedDatagramView,
    pdo_values: Seq<char>,
) -> Seq<char> {
    let comma = seq![','];
    spec_decimal(timestamp_ns as nat) + comma + spec_decimal(dg.header.slave_address as nat) + comma
        + match spec_find_device(slaves, dg.header.slave_address) {
        Some(d) => spec_csv_escape(d.device_name@),
        None => Seq::empty(),
    } + comma + spec_command_name(dg.header.command) + comma + spec_decimal(
        dg.header.register_offset as nat,
    ) + comma + spec_decimal(dg.header.data_length as nat) + comma + spec_decimal(
        dg.header.working_counter as nat,
    ) + comma + match dg.mailbox {
        Some(m) => spec_mailbox_type_name(m.msg_type),
        None => Seq::empty(),
    } + comma + spec_csv_escape(pdo_values) + comma + spec_bool_text(dg.is_fault) + comma
        + spec_decimal(
        match dg.fault_code {
            Some(c) => c as nat,
            None => 0,
        },
    ) + comma + spec_csv_escape(
        match dg.fault_description {
            Some(t) => t,
            None => Seq::empty(),
        },
    )
}

/// Appends a comma and `t`.
fn push_text(out: &mut String, t: &str)
    ensures
        final(out)@ == old(out)@ + seq![','] + t@,
{
    push_char(out, ',');
    out.append(t);
}

/// One line of the CSV listing for a datagram, given its PDO values joined
/// into one field.
pub fn csv_row(timestamp_ns: u64, dg: &ParsedDatagram, converter: &PdoConverter, pdo_values: &str) -> (s: String)
    ensures
        s@ == spec_csv_row(timestamp_ns, converter.slaves(), dg@, pdo_values@),
{
    let mut s = u64_to_decimal(timestamp_ns);
    push_field(&mut s, dg.header.slave_address as u64);
    match converter.get_slave_device_name(dg.header.slave_address) {
        Some(name) => {
            let escaped = csv_escape(name);
            push_text(&mut s, escaped.as_str());
        },
        None => push_char(&mut s, ','),
    }
    push_text(&mut s, dg.header.command.to_str());
    push_field(&mut s, dg.header.register_offset as u64);
    push_field(&mut s, dg.header.data_length as u64);
    push_field(&mut s, dg.header.working_counter as u64);
    match &dg.mailbox {
        Some(m) => push_text(&mut s, m.msg_type.to_str()),
        None => push_char(&mut s, ','),
    }
    let pdo = csv_escape(pdo_values);
    push_text(&mut s, pdo.as_str());
    if dg.is_fault {
        push_text(&mut s, "true");
    } else {
        push_text(&mut s, "false");
    }
    let code: u32 = match dg.fault_code {
        Some(c) => c,
        None => 0,
    };
    push_field(&mut s, code as u64);
    let desc = match &dg.fault_description {
        Some(t) => csv_escape(t.as_str()),
        None => csv_escape(""),
    };
    push_text(&mut s, desc.as_str());
    proof {
        reveal_strlit("true");
        reveal_strlit("false");
        reveal_strlit("");
    }
    s
}

/// The value of a PDO entry in the CSV listing: its rendering, or, for a
/// floating-point value, the text given for entry `k`, or nothing.
pub open spec fn spec_csv_value(v: crate::PdoValueView, k: u16, float_texts: Map<u16, String>) -> Seq<char> {
    match spec_format_value(v) {
        Some(t) => t,
        None => if float_texts.contains_key(k) {
            float_texts[k]@
        } else {
            Seq::empty()
        },
    }
}

/// A PDO entry in the CSV listing: `label=value`.
pub open spec fn spec_pdo_pair(r: RegisterValueView, k: u16, float_texts: Map<u16, String>) -> Seq<char> {
    spec_entry_label(r) + seq!['='] + spec_csv_value(r.value, k, float_texts)
}

/// Texts joined with `;`.
pub open spec fn spec_join_semicolons(ts: Seq<Seq<char>>) -> Seq<char>
    decreases ts.len(),
{
    if ts.len() == 0 {
        Seq::empty()
    } else if ts.len() == 1 {
        ts[0]
    } else {
        spec_join_semicolons(ts.drop_last()) + seq![';'] + ts.last()
    }
}

fn csv_value(v: &crate::PdoValueType, k: u16, float_texts: &HashMap<u16, String>) -> (s: String)
    ensures
        s@ == spec_csv_value(v@, k, float_texts@),
{
    match PdoConverter::format_value(v) {
        Some(t) => t,
        None => match float_texts.get(&k) {
            Some(t) => t.clone(),
            None => String::new(),
        },
    }
}

/// The PDO values of a datagram as one CSV field: `label=value` for each
/// entry, joined with `;`, in the order in which the entry map is walked
/// (each entry once); nothing without process data. `float_texts` holds the
/// texts of the floating-point values by entry number.
pub fn pdo_values_text(pdo: &Option<PdoData>, float_texts: &HashMap<u16, String>) -> (s: String)
    ensures
        match crate::opt_pdo_view(*pdo) {
            None => s@ == Seq::<char>::empty(),
            Some(p) => exists|ks: Seq<u16>|
                #[trigger] ks.to_set() == p.entries.dom() && ks.no_duplicates() && s@ == spec_join_semicolons(
                    ks.map_values(|k: u16| spec_pdo_pair(p.entries[k], k, float_texts@)),
                ),
        },
{
    match pdo {
        None => String::new(),
        Some(p) => {
            let ghost v = entries_view(p.entries@);
            assert(v.dom() =~= p.entries@.dom());
            let keys = entry_keys(&p.entries);
            let ghost f = |k: u16| spec_pdo_pair(v[k], k, float_texts@);
            let mut s = String::new();
            let mut j: usize = 0;
            while j < keys.len()
                invariant
                    j <= keys@.len(),
                    keys@.to_set() == p.entries@.dom(),
                    v == entries_view(p.entries@),
                    f == (|k: u16| spec_pdo_pair(v[k], k, float_texts@)),
                    s@ == spec_join_semicolons(keys@.take(j as int).map_values(f)),
                decreases keys@.len() - j,
            {
                let k = keys[j];
                assert(keys@.contains(k));
                assert(keys@.to_set().contains(k));
                let r = p.entries.get(&k).unwrap();
                let ghost before = s@;
                if j > 0 {
                    push_char(&mut s, ';');
                }
                let ghost sep = s@;
                let label = entry_label(r);
                s.append(label.as_str());
                push_char(&mut s, '=');
                let val = csv_value(&r.value, k, float_texts);
                s.append(val.as_str());
                proof {
                    let t = keys@.take(j + 1).map_values(f);
                    assert(t.drop_last() =~= keys@.take(j as int).map_values(f));
                    assert(t.last() == f(k));
                    assert(v[k] == r@);
                    assert(s@ =~= sep + f(k));
                    if j > 0 {
                        assert(sep =~= before + seq![';']);
                    } else {
                        assert(keys@.take(j as int).map_values(f) =~= Seq::<Seq<char>>::empty());
                        assert(sep =~= Seq::<char>::empty());
                    }
                    assert(s@ =~= spec_join_semicolons(t));
                }
                j = j + 1;
            }
            proof {
                assert(keys@.take(j as int) =~= keys@);
                assert(p@.entries == v);
            }
            s
        },
    }
}

} // verus!
