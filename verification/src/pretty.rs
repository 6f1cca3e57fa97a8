//! The pretty listing of decoded frames: one block of lines per frame, with
//! a line per datagram, its fault, mailbox and SDO, and its PDO entries in
//! listing order. Fragments can be coloured; without colour the lines are
//! plain text.

use crate::output::{
    entry_label, format_hex4, format_mac, format_ts, hex4, push_padded, spec_entry_label,
    spec_format_ts, spec_mac_text, spec_pad_right,
};
use crate::pdo_converter::{spec_find_device, spec_format_value, PdoConverter};
use crate::text::{
    hex_encode, hex_padded, owned, spec_decimal, spec_hex_bytes, spec_hex_padded,
    u64_to_decimal,
};
use crate::{
    entries_view, spec_command_name, spec_mailbox_type_name, EthercatFrame,
    EthercatFrameView, ParseStats, ParseTemplate, ParsedDatagram, ParsedDatagramView, PdoData, PdoDataView, PdoValueView,
    RegisterValue, RegisterValueView, TemplateSlave,
};
use colored::Colorize;
use std::collections::HashMap;
use vstd::prelude::*;
use vstd::std_specs::iter::IteratorSpec;

verus! {

broadcast use vstd::std_specs::hash::group_hash_axioms;

pub(crate) fn entry_keys(m: &HashMap<u16, RegisterValue>) -> (ks: Vec<u16>)
    ensures
        ks@.no_duplicates(),
        ks@.to_set() == m@.dom(),
{
    let mut ks: Vec<u16> = Vec::new();
    let ghost g = vstd::std_specs::hash::spec_keys_iter(m).remaining();
    for k in it: m.keys()
        invariant
            it.seq() == g,
            ks@.len() == it.index(),
            forall|i: int| 0 <= i < it.index() ==> ks@[i] == *g[i],
    {
        ks.push(*k);
    }
    proof {
        assert(ks@ =~= g.unref());
    }
    ks
}

/// Entry `a` of a PDO is listed before entry `b`: by register index, then
/// sub-index, then entry number.
pub open spec fn entry_before(m: Map<u16, RegisterValueView>, a: u16, b: u16) -> bool {
    let x = m[a];
    let y = m[b];
    x.index < y.index || (x.index == y.index && (x.subindex < y.subindex || (x.subindex
        == y.subindex && a < b)))
}

/// `ks` lists every entry number of `m` once, in listing order.
pub open spec fn keys_in_listing_order(m: Map<u16, RegisterValueView>, ks: Seq<u16>) -> bool {
    &&& ks.no_duplicates()
    &&& ks.to_set() == m.dom()
    &&& forall|i: int, j: int| 0 <= i < j < ks.len() ==> entry_before(m, #[trigger] ks[i], #[trigger] ks[j])
}

/// The entry numbers of a PDO in listing order.
pub open spec fn spec_listing_keys(m: Map<u16, RegisterValueView>) -> Seq<u16> {
    choose|ks: Seq<u16>| keys_in_listing_order(m, ks)
}

proof fn lemma_in_seq(s: Seq<u16>, v: u16) -> (j: int)
    requires
        s.to_set().contains(v),
    ensures
        0 <= j < s.len(),
        s[j] == v,
{
    assert(s.contains(v));
    choose|j: int| 0 <= j < s.len() && s[j] == v
}

/// Two listings of the same entries in listing order are the same.
proof fn lemma_listing_unique(m: Map<u16, RegisterValueView>, a: Seq<u16>, b: Seq<u16>)
    requires
        keys_in_listing_order(m, a),
        keys_in_listing_order(m, b),
    ensures
        a == b,
    decreases a.len(),
{
    if a.len() == 0 {
        if b.len() > 0 {
            assert(b.to_set().contains(b[0]));
            assert(a.to_set().contains(b[0]));
            let j = lemma_in_seq(a, b[0]);
        }
        assert(a =~= b);
    } else if b.len() == 0 {
        assert(a.to_set().contains(a[0]));
        assert(b.to_set().contains(a[0]));
        let j = lemma_in_seq(b, a[0]);
    } else {
        let x = a[0];
        let y = b[0];
        if x != y {
            assert(a.to_set().contains(x));
            assert(b.to_set().contains(y));
            let jb = lemma_in_seq(b, x);
            let ja = lemma_in_seq(a, y);
            assert(entry_before(m, b[0], b[jb]));
            assert(entry_before(m, a[0], a[ja]));
        }
        let m2 = m.remove(x);
        let a2 = a.drop_first();
        let b2 = b.drop_first();
        assert forall|i: int, j: int| 0 <= i < j < a2.len() implies entry_before(m2, #[trigger] a2[i], #[trigger] a2[j]) by {
            assert(a2[i] == a[i + 1] && a2[j] == a[j + 1]);
            assert(entry_before(m, a[i + 1], a[j + 1]));
        }
        assert forall|i: int, j: int| 0 <= i < j < b2.len() implies entry_before(m2, #[trigger] b2[i], #[trigger] b2[j]) by {
            assert(b2[i] == b[i + 1] && b2[j] == b[j + 1]);
            assert(entry_before(m, b[i + 1], b[j + 1]));
        }
        lemma_tail_set(m, a);
        lemma_tail_set(m, b);
        lemma_listing_unique(m2, a2, b2);
        assert(x == y);
        assert(a.len() == b.len());
        assert forall|i: int| 0 <= i < a.len() implies a[i] == b[i] by {
            if i > 0 {
                assert(a[i] == a2[i - 1]);
                assert(b[i] == b2[i - 1]);
            }
        }
        assert(a =~= b);
    }
}

/// The rest of a listing lists the remaining entries.
proof fn lemma_tail_set(m: Map<u16, RegisterValueView>, a: Seq<u16>)
    requires
        a.len() > 0,
        a.no_duplicates(),
        a.to_set() == m.dom(),
    ensures
        a.drop_first().no_duplicates(),
        a.drop_first().to_set() == m.remove(a[0]).dom(),
{
    let t = a.drop_first();
    assert forall|z: u16| t.to_set().contains(z) implies m.remove(a[0]).dom().contains(z) by {
        let j = lemma_in_seq(t, z);
        assert(a[j + 1] == z);
        assert(a.contains(z));
        assert(z != a[0]);
    }
    assert forall|z: u16| m.remove(a[0]).dom().contains(z) implies t.to_set().contains(z) by {
        assert(a.to_set().contains(z));
        let j = lemma_in_seq(a, z);
        assert(j != 0);
        assert(t[j - 1] == z);
        assert(t.contains(z));
    }
    assert forall|i: int, j: int| 0 <= i < t.len() && 0 <= j < t.len() && i != j implies t[i] != t[j] by {
        assert(t[i] == a[i + 1] && t[j] == a[j + 1]);
    }
    assert(t.to_set() =~= m.remove(a[0]).dom());
}

proof fn lemma_insert_set(s: Seq<u16>, p: int, k: u16)
    requires
        0 <= p <= s.len(),
        s.no_duplicates(),
        !s.to_set().contains(k),
    ensures
        s.insert(p, k).no_duplicates(),
        s.insert(p, k).to_set() == s.to_set().insert(k),
{
    let t = s.insert(p, k);
    s.insert_ensures(p, k);
    assert forall|i: int| 0 <= i < t.len() implies (i < p ==> t[i] == s[i]) && (i > p ==> t[i]
        == s[i - 1]) by {
        if i > p {
            assert(t[(i - 1) + 1] == s[i - 1]);
        }
    }
    assert forall|z: u16| t.to_set().contains(z) implies s.to_set().insert(k).contains(z) by {
        let j = lemma_in_seq(t, z);
        if j < p {
            assert(s[j] == z);
            assert(s.contains(z));
        } else if j > p {
            assert(s[j - 1] == z);
            assert(s.contains(z));
        }
    }
    assert forall|z: u16| s.to_set().insert(k).contains(z) implies t.to_set().contains(z) by {
        if z == k {
            assert(t[p] == k);
            assert(t.contains(z));
        } else {
            let j = lemma_in_seq(s, z);
            if j < p {
                assert(t[j] == z);
            } else {
                assert(t[j + 1] == z);
            }
            assert(t.contains(z));
        }
    }
    assert forall|i: int, j: int| 0 <= i < t.len() && 0 <= j < t.len() && i != j implies t[i] != t[j] by {
        if t[i] == k || t[j] == k {
            if i != p {
                let si = if i < p { i } else { i - 1 };
                assert(t[i] == s[si]);
                assert(s.contains(s[si]));
            }
            if j != p {
                let sj = if j < p { j } else { j - 1 };
                assert(t[j] == s[sj]);
                assert(s.contains(s[sj]));
            }
        } else {
            let si = if i < p { i } else { i - 1 };
            let sj = if j < p { j } else { j - 1 };
            assert(t[i] == s[si] && t[j] == s[sj]);
        }
    }
    assert(t.to_set() =~= s.to_set().insert(k));
}

/// Whether entry `a` is listed before entry `b`.
fn listed_before(m: &HashMap<u16, RegisterValue>, a: u16, b: u16) -> (r: bool)
    requires
        m@.contains_key(a),
        m@.contains_key(b),
    ensures
        r == entry_before(entries_view(m@), a, b),
{
    let x = m.get(&a).unwrap();
    let y = m.get(&b).unwrap();
    x.index < y.index || (x.index == y.index && (x.subindex < y.subindex || (x.subindex
        == y.subindex && a < b)))
}

/// The entry numbers of a PDO in listing order.
fn listing_keys(m: &HashMap<u16, RegisterValue>) -> (ks: Vec<u16>)
    ensures
        ks@ == spec_listing_keys(entries_view(m@)),
        keys_in_listing_order(entries_view(m@), ks@),
{
    let ghost v = entries_view(m@);
    let keys = entry_keys(m);
    let mut out: Vec<u16> = Vec::new();
    let mut i: usize = 0;
    assert(keys@.take(0).to_set() =~= out@.to_set());
    while i < keys.len()
        invariant
            v == entries_view(m@),
            i <= keys@.len(),
            keys@.no_duplicates(),
            keys@.to_set() == m@.dom(),
            out@.no_duplicates(),
            out@.to_set() == keys@.take(i as int).to_set(),
            forall|p: int, q: int| 0 <= p < q < out@.len() ==> entry_before(v, #[trigger] out@[p], #[trigger] out@[q]),
        decreases keys@.len() - i,
    {
        let k = keys[i];
        assert(keys@.to_set().contains(k)) by {
            assert(keys@.contains(k));
        }
        assert(!out@.to_set().contains(k)) by {
            if out@.to_set().contains(k) {
                let j = lemma_in_seq(keys@.take(i as int), k);
                assert(keys@[j] == keys@[i as int]);
            }
        }
        assert forall|q: int| 0 <= q < out@.len() implies m@.contains_key(#[trigger] out@[q]) by {
            assert(out@.contains(out@[q]));
            let j = lemma_in_seq(keys@.take(i as int), out@[q]);
            assert(keys@.contains(keys@[j]));
        }
        let mut p: usize = 0;
        while p < out.len() && !listed_before(m, k, out[p])
            invariant
                v == entries_view(m@),
                p <= out@.len(),
                m@.contains_key(k),
                !out@.to_set().contains(k),
                forall|q: int| 0 <= q < out@.len() ==> m@.contains_key(#[trigger] out@[q]),
                forall|q: int| 0 <= q < p ==> entry_before(v, #[trigger] out@[q], k),
            decreases out@.len() - p,
        {
            assert(out@.contains(out@[p as int]));
            p = p + 1;
        }
        let ghost old_out = out@;
        proof {
            lemma_insert_set(old_out, p as int, k);
            old_out.insert_ensures(p as int, k);
        }
        out.insert(p, k);
        proof {
            assert(keys@.take(i + 1) =~= keys@.take(i as int).push(k));
            keys@.take(i as int).lemma_push_to_set_commute(k);
            assert forall|a: int, b: int| 0 <= a < b < out@.len() implies entry_before(v, #[trigger] out@[a], #[trigger] out@[b]) by {
                if a < p as int && b < p as int {
                    assert(out@[a] == old_out[a] && out@[b] == old_out[b]);
                } else if a < p as int && b == p as int {
                } else if a < p as int {
                    assert(out@[a] == old_out[a] && out@[b] == old_out[b - 1]);
                    assert(entry_before(v, old_out[a], old_out[p as int]) || true);
                    assert(entry_before(v, k, old_out[p as int]));
                    if b - 1 > p as int {
                        assert(entry_before(v, old_out[p as int], old_out[b - 1]));
                    }
                } else if a == p as int {
                    assert(out@[b] == old_out[b - 1]);
                    assert(entry_before(v, k, old_out[p as int]));
                    if b - 1 > p as int {
                        assert(entry_before(v, old_out[p as int], old_out[b - 1]));
                    }
                } else {
                    assert(out@[a] == old_out[a - 1] && out@[b] == old_out[b - 1]);
                }
            }
        }
        i = i + 1;
    }
    proof {
        assert(keys@.take(i as int) =~= keys@);
        assert(v.dom() =~= m@.dom());
        assert(keys_in_listing_order(v, out@));
        assert(keys_in_listing_order(v, spec_listing_keys(v)));
        lemma_listing_unique(v, out@, spec_listing_keys(v));
    }
    out
}


/// A colour of the pretty listing.
#[derive(Debug, Clone, Copy, PartialEq, Eq, Structural)]
pub enum Color {
    Blue,
    Cyan,
    Green,
    Magenta,
    Yellow,
    BrightBlack,
    BrightBlue,
    BrightCyan,
    BrightMagenta,
    BrightRed,
    BrightWhite,
    BrightYellow,
}

/// The number that selects a foreground colour in an ANSI escape sequence.
pub open spec fn spec_color_code(c: Color) -> Seq<char> {
    match c {
        Color::Blue => "34"@,
        Color::Cyan => "36"@,
        Color::Green => "32"@,
        Color::Magenta => "35"@,
        Color::Yellow => "33"@,
        Color::BrightBlack => "90"@,
        Color::BrightBlue => "94"@,
        Color::BrightCyan => "96"@,
        Color::BrightMagenta => "95"@,
        Color::BrightRed => "91"@,
        Color::BrightWhite => "97"@,
        Color::BrightYellow => "93"@,
    }
}

/// The escape sequence that starts text in colour `c`.
pub open spec fn spec_style(c: Color) -> Seq<char> {
    "\x1B["@ + spec_color_code(c) + "m"@
}

/// The escape sequence that ends coloured text.
pub open spec fn spec_reset() -> Seq<char> {
    "\x1B[0m"@
}

/// `t` with `style` written again after each reset sequence in it, so that
/// text nested inside coloured text keeps the outer colour.
pub open spec fn spec_restyle(t: Seq<char>, style: Seq<char>) -> Seq<char>
    decreases t.len(),
{
    if t.len() == 0 {
        t
    } else if t.len() >= 4 && t.take(4) == spec_reset() {
        spec_reset() + style + spec_restyle(t.skip(4), style)
    } else {
        seq![t[0]] + spec_restyle(t.skip(1), style)
    }
}

/// `t` in colour `c` on a terminal: the colour's escape sequence, the text,
/// and a reset sequence.
pub open spec fn spec_painted(t: Seq<char>, c: Color) -> Seq<char> {
    spec_style(c) + spec_restyle(t, spec_style(c)) + spec_reset()
}

/// `s` is what a fragment `t` in colour `c` can be shown as: the text
/// itself, or, unless colour is off, the text painted.
pub open spec fn painting_of(t: Seq<char>, c: Color, s: Seq<char>, no_color: bool) -> bool {
    s == t || (!no_color && s == spec_painted(t, c))
}

/// `colored::Colorize::color` followed by `to_string`. colored writes the
/// text unchanged when its colour setting (`control::SHOULD_COLORIZE`, taken
/// from the environment or from `control::set_override`) is off, and
/// `spec_painted` of it when the setting is on. Which of the two comes out
/// is not stated, as it depends on the environment; nor is the text for a
/// setting that another thread changes while this one is being written.
#[verifier::external_body]
fn paint(text: &str, color: Color) -> (s: String)
    ensures
        s@ == text@ || s@ == spec_painted(text@, color),
{
    let c = match color {
        Color::Blue => colored::Color::Blue,
        Color::Cyan => colored::Color::Cyan,
        Color::Green => colored::Color::Green,
        Color::Magenta => colored::Color::Magenta,
        Color::Yellow => colored::Color::Yellow,
        Color::BrightBlack => colored::Color::BrightBlack,
        Color::BrightBlue => colored::Color::BrightBlue,
        Color::BrightCyan => colored::Color::BrightCyan,
        Color::BrightMagenta => colored::Color::BrightMagenta,
        Color::BrightRed => colored::Color::BrightRed,
        Color::BrightWhite => colored::Color::BrightWhite,
        Color::BrightYellow => colored::Color::BrightYellow,
    };
    text.color(c).to_string()
}

/// A fragment of the listing in a colour; without colour the text itself.
pub fn colorize(text: &str, color: Color, no_color: bool) -> (s: String)
    ensures
        painting_of(text@, color, s@, no_color),
        no_color ==> s@ == text@,
{
    if no_color {
        owned(text)
    } else {
        paint(text, color)
    }
}

/// A line of the listing: its coloured fragments, and how the line is put
/// together from those fragments as shown.
pub struct PrettyLine {
    pub frags: Seq<(Seq<char>, Color)>,
    pub render: spec_fn(Seq<Seq<char>>) -> Seq<char>,
}

/// The texts of the fragments.
pub open spec fn plain_texts(frags: Seq<(Seq<char>, Color)>) -> Seq<Seq<char>> {
    frags.map_values(|f: (Seq<char>, Color)| f.0)
}

/// A line as plain text.
pub open spec fn plain_line(l: PrettyLine) -> Seq<char> {
    (l.render)(plain_texts(l.frags))
}

/// `ps` shows each fragment of `frags`, in order.
pub open spec fn painted_all(frags: Seq<(Seq<char>, Color)>, ps: Seq<Seq<char>>, no_color: bool) -> bool {
    &&& ps.len() == frags.len()
    &&& forall|j: int| 0 <= j < ps.len() ==> painting_of(frags[j].0, frags[j].1, #[trigger] ps[j], no_color)
}

/// `s` is line `l` with each of its fragments shown plain or painted.
pub open spec fn line_shows(l: PrettyLine, s: Seq<char>, no_color: bool) -> bool {
    exists|ps: Seq<Seq<char>>| #[trigger] painted_all(l.frags, ps, no_color) && s == (l.render)(ps)
}

/// The strings `ls` show the lines `items`, one for one.
pub open spec fn lines_show(items: Seq<PrettyLine>, ls: Seq<Seq<char>>, no_color: bool) -> bool {
    &&& ls.len() == items.len()
    &&& forall|k: int| 0 <= k < ls.len() ==> #[trigger] line_shows(items[k], ls[k], no_color)
}

/// A line without colour.
pub open spec fn plain_item(t: Seq<char>) -> PrettyLine {
    PrettyLine { frags: Seq::empty(), render: |ps: Seq<Seq<char>>| t }
}

/// A line in one colour.
pub open spec fn whole_item(t: Seq<char>, c: Color) -> PrettyLine {
    PrettyLine { frags: seq![(t, c)], render: |ps: Seq<Seq<char>>| ps[0] }
}

/// The texts of a sequence of strings.
pub open spec fn texts(v: Seq<String>) -> Seq<Seq<char>> {
    v.map_values(|l: String| l@)
}

proof fn lemma_painted_none(nc: bool)
    ensures
        painted_all(Seq::empty(), Seq::empty(), nc),
{
}

proof fn lemma_painted_one(t0: Seq<char>, c0: Color, p0: Seq<char>, nc: bool)
    requires
        painting_of(t0, c0, p0, nc),
    ensures
        painted_all(seq![(t0, c0)], seq![p0], nc),
{
    assert forall|j: int| 0 <= j < 1 implies painting_of(
        seq![(t0, c0)][j].0,
        seq![(t0, c0)][j].1,
        #[trigger] seq![p0][j],
        nc,
    ) by {
        assert(j == 0);
    }
}

proof fn lemma_painted_two(t0: Seq<char>, c0: Color, p0: Seq<char>, t1: Seq<char>, c1: Color, p1: Seq<char>, nc: bool)
    requires
        painting_of(t0, c0, p0, nc),
        painting_of(t1, c1, p1, nc),
    ensures
        painted_all(seq![(t0, c0), (t1, c1)], seq![p0, p1], nc),
{
    let f = seq![(t0, c0), (t1, c1)];
    let ps = seq![p0, p1];
    assert forall|j: int| 0 <= j < 2 implies painting_of(f[j].0, f[j].1, #[trigger] ps[j], nc) by {
        if j == 0 {
        } else {
            assert(j == 1);
        }
    }
}

proof fn lemma_painted_three(
    t0: Seq<char>,
    c0: Color,
    p0: Seq<char>,
    t1: Seq<char>,
    c1: Color,
    p1: Seq<char>,
    t2: Seq<char>,
    c2: Color,
    p2: Seq<char>,
    nc: bool,
)
    requires
        painting_of(t0, c0, p0, nc),
        painting_of(t1, c1, p1, nc),
        painting_of(t2, c2, p2, nc),
    ensures
        painted_all(seq![(t0, c0), (t1, c1), (t2, c2)], seq![p0, p1, p2], nc),
{
    let f = seq![(t0, c0), (t1, c1), (t2, c2)];
    let ps = seq![p0, p1, p2];
    assert forall|j: int| 0 <= j < 3 implies painting_of(f[j].0, f[j].1, #[trigger] ps[j], nc) by {
        if j == 0 {
        } else if j == 1 {
        } else {
            assert(j == 2);
        }
    }
}

/// Without colour, a line is shown as its plain text.
proof fn lemma_shows_plain(l: PrettyLine, s: Seq<char>)
    requires
        line_shows(l, s, true),
    ensures
        s == plain_line(l),
{
    let ps = choose|ps: Seq<Seq<char>>| #[trigger] painted_all(l.frags, ps, true) && s == (l.render)(ps);
    assert(ps =~= plain_texts(l.frags)) by {
        assert forall|j: int| 0 <= j < ps.len() implies ps[j] == plain_texts(l.frags)[j] by {
            assert(painting_of(l.frags[j].0, l.frags[j].1, ps[j], true));
        }
    }
}

/// Without colour, the strings shown are the plain lines.
proof fn lemma_lines_plain(items: Seq<PrettyLine>, ls: Seq<Seq<char>>)
    requires
        lines_show(items, ls, true),
    ensures
        ls == items.map_values(|l: PrettyLine| plain_line(l)),
{
    assert forall|k: int| 0 <= k < ls.len() implies ls[k] == plain_line(items[k]) by {
        assert(line_shows(items[k], ls[k], true));
        lemma_shows_plain(items[k], ls[k]);
    }
    assert(ls =~= items.map_values(|l: PrettyLine| plain_line(l)));
}

proof fn lemma_lines_push(items: Seq<PrettyLine>, ls: Seq<Seq<char>>, l: PrettyLine, s: Seq<char>, nc: bool)
    requires
        lines_show(items, ls, nc),
        line_shows(l, s, nc),
    ensures
        lines_show(items.push(l), ls.push(s), nc),
{
    assert forall|k: int| 0 <= k < ls.push(s).len() implies #[trigger] line_shows(
        items.push(l)[k],
        ls.push(s)[k],
        nc,
    ) by {
        if k < ls.len() {
            assert(items.push(l)[k] == items[k]);
            assert(ls.push(s)[k] == ls[k]);
            assert(line_shows(items[k], ls[k], nc));
        }
    }
}

/// Appends a line shown for `l` to lines shown for `items`.
fn push_shown(lines: &mut Vec<String>, s: String, Ghost(items): Ghost<Seq<PrettyLine>>, Ghost(l): Ghost<PrettyLine>, no_color: bool)
    requires
        lines_show(items, texts(old(lines)@), no_color),
        line_shows(l, s@, no_color),
    ensures
        lines_show(items.push(l), texts(final(lines)@), no_color),
{
    let ghost before = texts(lines@);
    lines.push(s);
    proof {
        assert(texts(lines@) =~= before.push(s@));
        lemma_lines_push(items, before, l, s@, no_color);
    }
}

/// A line without colour, shown.
fn plain_shown(t: String, no_color: bool) -> (s: String)
    ensures
        line_shows(plain_item(t@), s@, no_color),
        s@ == t@,
{
    proof {
        lemma_painted_none(no_color);
        assert(painted_all(plain_item(t@).frags, Seq::empty(), no_color));
    }
    t
}

/// A line in one colour, shown.
fn whole_shown(t: &str, c: Color, no_color: bool) -> (s: String)
    ensures
        line_shows(whole_item(t@, c), s@, no_color),
{
    let s = colorize(t, c, no_color);
    proof {
        lemma_painted_one(t@, c, s@, no_color);
        assert(painted_all(whole_item(t@, c).frags, seq![s@], no_color));
    }
    s
}

/// An optional text, or a default.
pub open spec fn text_or(o: Option<Seq<char>>, default: Seq<char>) -> Seq<char> {
    match o {
        Some(t) => t,
        None => default,
    }
}

/// How an optional SDO abort code is shown (`Some(<decimal>)` or `None`).
pub open spec fn spec_debug_code(e: Option<u32>) -> Seq<char> {
    match e {
        Some(c) => "Some("@ + spec_decimal(c as nat) + ")"@,
        None => "None"@,
    }
}

/// The text of a PDO value: its rendering, or, for a floating-point value,
/// the text given for entry `k` of datagram `i`, or nothing.
pub open spec fn spec_value_text(
    v: PdoValueView,
    i: int,
    k: u16,
    float_texts: Seq<HashMap<u16, String>>,
) -> Seq<char> {
    match spec_format_value(v) {
        Some(t) => t,
        None => if 0 <= i < float_texts.len() && float_texts[i]@.contains_key(k) {
            float_texts[i]@[k]@
        } else {
            Seq::empty()
        },
    }
}

/// The first line of a frame: the capture time (bright blue) in a rule.
pub open spec fn spec_frame_head_item(frame: EthercatFrameView) -> PrettyLine {
    PrettyLine {
        frags: seq![(spec_format_ts(frame.timestamp_ns), Color::BrightBlue)],
        render: |ps: Seq<Seq<char>>| "═══ Frame @ "@ + ps[0] + " ═══════════════════════════════"@,
    }
}

/// The Ethernet line of a frame: source and destination (cyan), Ethertype
/// and length.
pub open spec fn spec_eth_item(frame: EthercatFrameView) -> PrettyLine {
    PrettyLine {
        frags: seq![
            (spec_mac_text(frame.ethernet_src), Color::Cyan),
            (spec_mac_text(frame.ethernet_dest), Color::Cyan),
        ],
        render: |ps: Seq<Seq<char>>|
            "  Eth: "@ + ps[0] + " → "@ + ps[1] + "  Ethertype: "@ + hex4(frame.ethertype as nat)
                + "  Len: "@ + spec_decimal(frame.frame_length as nat) + "B"@,
    }
}

/// The coloured part of a slave's name: its device name, or its address.
pub open spec fn spec_slave_fragment(slaves: Seq<TemplateSlave>, id: u16) -> Seq<char> {
    match spec_find_device(slaves, id) {
        Some(d) => d.device_name@,
        None => spec_decimal(id as nat),
    }
}

/// How a slave is named, with its coloured part shown as `p`.
pub open spec fn spec_slave_text(slaves: Seq<TemplateSlave>, id: u16, p: Seq<char>) -> Seq<char> {
    "Slave#"@ + match spec_find_device(slaves, id) {
        Some(d) => spec_decimal(id as nat) + " ("@ + p + ")"@,
        None => p,
    }
}

/// The first line of datagram `i`: index (bright black), command (yellow),
/// slave (green), register and working counter, in columns of 4, 20, 12 and
/// 8 characters.
pub open spec fn spec_datagram_item(i: int, dg: ParsedDatagramView, slaves: Seq<TemplateSlave>) -> PrettyLine {
    let id = dg.header.slave_address;
    PrettyLine {
        frags: seq![
            ("["@ + spec_decimal(i as nat) + "]"@, Color::BrightBlack),
            (spec_pad_right(spec_command_name(dg.header.command), 4), Color::Yellow),
            (spec_slave_fragment(slaves, id), Color::Green),
        ],
        render: |ps: Seq<Seq<char>>|
            "  "@ + ps[0] + " "@ + ps[1] + " "@ + spec_pad_right(spec_slave_text(slaves, id, ps[2]), 20)
                + " "@ + spec_pad_right("Reg:"@ + hex4(dg.header.register_offset as nat), 12) + " "@
                + spec_pad_right("WC:"@ + spec_decimal(dg.header.working_counter as nat), 8),
    }
}

/// The fault line of a datagram (bright red as a whole).
pub open spec fn spec_fault_text(dg: ParsedDatagramView) -> Seq<char> {
    "  ⚠ FAULT: "@ + text_or(dg.fault_description, "Unknown fault"@) + " ("@ + hex4(
        match dg.fault_code {
            Some(c) => c as nat,
            None => 0,
        },
    ) + ")"@
}

/// The mailbox line of a datagram, its type in bright magenta.
pub open spec fn spec_mailbox_item(m: crate::MailboxMessageView) -> PrettyLine {
    PrettyLine {
        frags: seq![(spec_mailbox_type_name(m.msg_type), Color::BrightMagenta)],
        render: |ps: Seq<Seq<char>>|
            "     └ Mailbox ["@ + ps[0] + "] Ch:"@ + spec_decimal(m.channel as nat) + " Pri:"@
                + spec_decimal(m.priority as nat) + " Cnt:"@ + spec_decimal(m.counter as nat),
    }
}

/// The SDO line of a mailbox.
pub open spec fn spec_sdo_line(s: crate::SdoAccessView) -> Seq<char> {
    "       SDO["@ + (if s.request {
        "REQ"@
    } else {
        "RES"@
    }) + "] "@ + hex4(s.index as nat) + ":"@ + spec_decimal(s.subindex as nat) + " data="@
        + spec_hex_bytes(s.data) + " err="@ + spec_debug_code(s.error_code)
}

/// The line of PDO entry `k` of datagram `i`: label, value (bright cyan),
/// unit, and comment (bright black).
pub open spec fn spec_entry_item(
    r: RegisterValueView,
    i: int,
    k: u16,
    float_texts: Seq<HashMap<u16, String>>,
) -> PrettyLine {
    let head = "        · "@ + spec_entry_label(r) + " = "@;
    let tail = " "@ + text_or(r.unit, Seq::empty()) + " "@;
    let value = spec_value_text(r.value, i, k, float_texts);
    match r.business_comment {
        Some(c) => PrettyLine {
            frags: seq![(value, Color::BrightCyan), (c, Color::BrightBlack)],
            render: |ps: Seq<Seq<char>>| head + ps[0] + tail + " // "@ + ps[1],
        },
        None => PrettyLine {
            frags: seq![(value, Color::BrightCyan)],
            render: |ps: Seq<Seq<char>>| head + ps[0] + tail,
        },
    }
}

/// The PDO block of datagram `i`: a heading and one line per entry in listing
/// order, when there are entries.
pub open spec fn spec_pdo_items(
    i: int,
    pdo: Option<PdoDataView>,
    float_texts: Seq<HashMap<u16, String>>,
) -> Seq<PrettyLine> {
    match pdo {
        Some(p) => if p.entries.dom().len() > 0 {
            seq![plain_item("     └ PDO entries:"@)] + spec_listing_keys(p.entries).map_values(
                |k: u16| spec_entry_item(p.entries[k], i, k, float_texts),
            )
        } else {
            Seq::empty()
        },
        None => Seq::empty(),
    }
}

/// The lines of datagram `i`: its first line, its fault, its mailbox and
/// SDO, and its PDO block.
pub open spec fn spec_datagram_items(
    i: int,
    dg: ParsedDatagramView,
    slaves: Seq<TemplateSlave>,
    float_texts: Seq<HashMap<u16, String>>,
) -> Seq<PrettyLine> {
    seq![spec_datagram_item(i, dg, slaves)] + (if dg.is_fault {
        seq![whole_item(spec_fault_text(dg), Color::BrightRed)]
    } else {
        Seq::empty()
    }) + match dg.mailbox {
        Some(m) => seq![spec_mailbox_item(m)] + match m.sdo {
            Some(s) => seq![plain_item(spec_sdo_line(s))],
            None => Seq::empty(),
        },
        None => Seq::empty(),
    } + spec_pdo_items(i, dg.pdo, float_texts)
}

/// The lines of the first `n` datagrams.
pub open spec fn spec_datagrams_items(
    dgs: Seq<ParsedDatagramView>,
    n: nat,
    slaves: Seq<TemplateSlave>,
    float_texts: Seq<HashMap<u16, String>>,
) -> Seq<PrettyLine>
    decreases n,
{
    if n == 0 {
        Seq::empty()
    } else {
        spec_datagrams_items(dgs, (n - 1) as nat, slaves, float_texts) + spec_datagram_items(
            n - 1,
            dgs[n - 1],
            slaves,
            float_texts,
        )
    }
}

/// The pretty listing of a frame: a heading with the capture time, the
/// Ethernet addresses, Ethertype and length, then the lines of each datagram.
pub open spec fn spec_pretty_items(
    frame: EthercatFrameView,
    slaves: Seq<TemplateSlave>,
    float_texts: Seq<HashMap<u16, String>>,
) -> Seq<PrettyLine> {
    seq![spec_frame_head_item(frame), spec_eth_item(frame)] + spec_datagrams_items(
        frame.datagrams,
        frame.datagrams.len(),
        slaves,
        float_texts,
    )
}

/// The pretty listing of a frame as plain text.
pub open spec fn spec_pretty_lines(
    frame: EthercatFrameView,
    slaves: Seq<TemplateSlave>,
    float_texts: Seq<HashMap<u16, String>>,
) -> Seq<Seq<char>> {
    spec_pretty_items(frame, slaves, float_texts).map_values(|l: PrettyLine| plain_line(l))
}

/// The text of a PDO value, with floating-point values taken from
/// `float_texts`.
fn value_text(v: &crate::PdoValueType, i: usize, k: u16, float_texts: &Vec<HashMap<u16, String>>) -> (s: String)
    ensures
        s@ == spec_value_text(v@, i as int, k, float_texts@),
{
    match PdoConverter::format_value(v) {
        Some(t) => t,
        None => {
            if i < float_texts.len() {
                match float_texts[i].get(&k) {
                    Some(t) => t.clone(),
                    None => String::new(),
                }
            } else {
                String::new()
            }
        },
    }
}

/// The line of PDO entry `k` of datagram `i`.
fn entry_line(r: &RegisterValue, i: usize, k: u16, float_texts: &Vec<HashMap<u16, String>>, no_color: bool) -> (s: String)
    ensures
        line_shows(spec_entry_item(r@, i as int, k, float_texts@), s@, no_color),
{
    let ghost item = spec_entry_item(r@, i as int, k, float_texts@);
    let mut s = owned("        · ");
    let label = entry_label(r);
    s.append(label.as_str());
    s.append(" = ");
    let value = value_text(&r.value, i, k, float_texts);
    let painted = colorize(value.as_str(), Color::BrightCyan, no_color);
    s.append(painted.as_str());
    s.append(" ");
    match &r.unit {
        Some(u) => s.append(u.as_str()),
        None => {},
    }
    s.append(" ");
    match &r.business_comment {
        Some(c) => {
            let comment = colorize(c.as_str(), Color::BrightBlack, no_color);
            s.append(" // ");
            s.append(comment.as_str());
            proof {
                let ps = seq![painted@, comment@];
                lemma_painted_two(value@, Color::BrightCyan, painted@, c@, Color::BrightBlack, comment@, no_color);
                assert(painted_all(item.frags, ps, no_color));
                assert(s@ =~= (item.render)(ps));
            }
        },
        None => {
            proof {
                let ps = seq![painted@];
                lemma_painted_one(value@, Color::BrightCyan, painted@, no_color);
                assert(painted_all(item.frags, ps, no_color));
                assert(s@ =~= (item.render)(ps));
            }
        },
    }
    s
}

/// The first line of datagram `i`.
fn datagram_line(i: usize, dg: &ParsedDatagram, converter: &PdoConverter, no_color: bool) -> (s: String)
    ensures
        line_shows(spec_datagram_item(i as int, dg@, converter.slaves()), s@, no_color),
{
    let ghost item = spec_datagram_item(i as int, dg@, converter.slaves());
    let mut s = owned("  ");
    let mut idx = owned("[");
    let n = u64_to_decimal(i as u64);
    idx.append(n.as_str());
    idx.append("]");
    let idx_c = colorize(idx.as_str(), Color::BrightBlack, no_color);
    s.append(idx_c.as_str());
    s.append(" ");
    let mut cmd = String::new();
    push_padded(&mut cmd, dg.header.command.to_str(), 4);
    assert(cmd@ =~= spec_pad_right(spec_command_name(dg.header.command), 4));
    let cmd_c = colorize(cmd.as_str(), Color::Yellow, no_color);
    s.append(cmd_c.as_str());
    s.append(" ");
    let id = dg.header.slave_address;
    let mut slave = owned("Slave#");
    let id_text = u64_to_decimal(id as u64);
    let ghost mut p2: Seq<char> = Seq::empty();
    match converter.get_slave_device_name(id) {
        Some(name) => {
            slave.append(id_text.as_str());
            slave.append(" (");
            let name_c = colorize(name, Color::Green, no_color);
            slave.append(name_c.as_str());
            slave.append(")");
            proof {
                p2 = name_c@;
            }
        },
        None => {
            let id_c = colorize(id_text.as_str(), Color::Green, no_color);
            slave.append(id_c.as_str());
            proof {
                p2 = id_c@;
            }
        },
    }
    assert(painting_of(spec_slave_fragment(converter.slaves(), id), Color::Green, p2, no_color));
    assert(slave@ =~= spec_slave_text(converter.slaves(), id, p2));
    push_padded(&mut s, slave.as_str(), 20);
    s.append(" ");
    let mut reg = owned("Reg:");
    let h = format_hex4(dg.header.register_offset as u64);
    reg.append(h.as_str());
    push_padded(&mut s, reg.as_str(), 12);
    s.append(" ");
    let mut wc = owned("WC:");
    let w = u64_to_decimal(dg.header.working_counter as u64);
    wc.append(w.as_str());
    push_padded(&mut s, wc.as_str(), 8);
    proof {
        let ps = seq![idx_c@, cmd_c@, p2];
        lemma_painted_three(
            idx@,
            Color::BrightBlack,
            idx_c@,
            cmd@,
            Color::Yellow,
            cmd_c@,
            spec_slave_fragment(converter.slaves(), id),
            Color::Green,
            p2,
            no_color,
        );
        assert(idx@ =~= "["@ + spec_decimal(i as nat) + "]"@);
        assert(painted_all(item.frags, ps, no_color));
        assert(s@ =~= (item.render)(ps));
    }
    s
}

/// The fault line of a datagram.
fn fault_line(dg: &ParsedDatagram, no_color: bool) -> (s: String)
    ensures
        line_shows(whole_item(spec_fault_text(dg@), Color::BrightRed), s@, no_color),
{
    let mut t = owned("  ⚠ FAULT: ");
    match &dg.fault_description {
        Some(d) => t.append(d.as_str()),
        None => t.append("Unknown fault"),
    }
    t.append(" (");
    let code: u32 = match dg.fault_code {
        Some(c) => c,
        None => 0,
    };
    let h = format_hex4(code as u64);
    t.append(h.as_str());
    t.append(")");
    assert(t@ =~= spec_fault_text(dg@));
    whole_shown(t.as_str(), Color::BrightRed, no_color)
}

/// The mailbox line of a datagram.
fn mailbox_line(m: &crate::MailboxMessage, no_color: bool) -> (s: String)
    ensures
        line_shows(spec_mailbox_item(m@), s@, no_color),
{
    let mut s = owned("     └ Mailbox [");
    let t = colorize(m.msg_type.to_str(), Color::BrightMagenta, no_color);
    s.append(t.as_str());
    s.append("] Ch:");
    let a = u64_to_decimal(m.channel as u64);
    s.append(a.as_str());
    s.append(" Pri:");
    let b = u64_to_decimal(m.priority as u64);
    s.append(b.as_str());
    s.append(" Cnt:");
    let c = u64_to_decimal(m.counter as u64);
    s.append(c.as_str());
    proof {
        let item = spec_mailbox_item(m@);
        let ps = seq![t@];
        lemma_painted_one(spec_mailbox_type_name(m@.msg_type), Color::BrightMagenta, t@, no_color);
        assert(painted_all(item.frags, ps, no_color));
        assert(s@ =~= (item.render)(ps));
    }
    s
}

/// The SDO line of a mailbox.
fn sdo_line(sdo: &crate::SdoAccess) -> (s: String)
    ensures
        s@ == spec_sdo_line(sdo@),
{
    let mut s = owned("       SDO[");
    if sdo.request {
        s.append("REQ");
    } else {
        s.append("RES");
    }
    s.append("] ");
    let h = format_hex4(sdo.index as u64);
    s.append(h.as_str());
    s.append(":");
    let sub = u64_to_decimal(sdo.subindex as u64);
    s.append(sub.as_str());
    s.append(" data=");
    let data = hex_encode(sdo.data.as_slice());
    s.append(data.as_str());
    s.append(" err=");
    match sdo.error_code {
        Some(c) => {
            s.append("Some(");
            let d = u64_to_decimal(c as u64);
            s.append(d.as_str());
            s.append(")");
        },
        None => s.append("None"),
    }
    s
}

/// Appends the PDO block of datagram `i`.
fn push_pdo_lines(
    lines: &mut Vec<String>,
    i: usize,
    pdo: &Option<PdoData>,
    float_texts: &Vec<HashMap<u16, String>>,
    Ghost(items): Ghost<Seq<PrettyLine>>,
    no_color: bool,
)
    requires
        lines_show(items, texts(old(lines)@), no_color),
    ensures
        lines_show(
            items + spec_pdo_items(i as int, crate::opt_pdo_view(*pdo), float_texts@),
            texts(final(lines)@),
            no_color,
        ),
{
    match pdo {
        Some(p) => {
            let ghost v = entries_view(p.entries@);
            assert(v.dom() =~= p.entries@.dom());
            if p.entries.len() > 0 {
                let ghost head = plain_item("     └ PDO entries:"@);
                let first = plain_shown(owned("     └ PDO entries:"), no_color);
                push_shown(lines, first, Ghost(items), Ghost(head), no_color);
                let keys = listing_keys(&p.entries);
                let ghost f = |k: u16| spec_entry_item(v[k], i as int, k, float_texts@);
                let mut j: usize = 0;
                while j < keys.len()
                    invariant
                        j <= keys@.len(),
                        v == entries_view(p.entries@),
                        keys_in_listing_order(v, keys@),
                        keys@ == spec_listing_keys(v),
                        head == plain_item("     └ PDO entries:"@),
                        f == (|k: u16| spec_entry_item(v[k], i as int, k, float_texts@)),
                        lines_show(items.push(head) + keys@.take(j as int).map_values(f), texts(lines@), no_color),
                    decreases keys@.len() - j,
                {
                    let k = keys[j];
                    assert(keys@.contains(k));
                    assert(keys@.to_set().contains(k));
                    let r = p.entries.get(&k).unwrap();
                    let line = entry_line(r, i, k, float_texts, no_color);
                    let ghost before = items.push(head) + keys@.take(j as int).map_values(f);
                    push_shown(lines, line, Ghost(before), Ghost(f(k)), no_color);
                    proof {
                        assert(items.push(head) + keys@.take(j + 1).map_values(f) =~= before.push(f(k)));
                    }
                    j = j + 1;
                }
                proof {
                    assert(keys@.take(j as int) =~= keys@);
                    assert(items.push(head) + keys@.map_values(f) =~= items + spec_pdo_items(
                        i as int,
                        crate::opt_pdo_view(*pdo),
                        float_texts@,
                    ));
                }
            } else {
                assert(items + spec_pdo_items(i as int, crate::opt_pdo_view(*pdo), float_texts@) =~= items);
            }
        },
        None => {
            assert(items + spec_pdo_items(i as int, crate::opt_pdo_view(*pdo), float_texts@) =~= items);
        },
    }
}

/// Appends the lines of datagram `i`.
fn push_datagram_lines(
    lines: &mut Vec<String>,
    i: usize,
    dg: &ParsedDatagram,
    converter: &PdoConverter,
    float_texts: &Vec<HashMap<u16, String>>,
    Ghost(items): Ghost<Seq<PrettyLine>>,
    no_color: bool,
)
    requires
        lines_show(items, texts(old(lines)@), no_color),
    ensures
        lines_show(
            items + spec_datagram_items(i as int, dg@, converter.slaves(), float_texts@),
            texts(final(lines)@),
            no_color,
        ),
{
    let ghost a = items.push(spec_datagram_item(i as int, dg@, converter.slaves()));
    let first = datagram_line(i, dg, converter, no_color);
    push_shown(lines, first, Ghost(items), Ghost(spec_datagram_item(i as int, dg@, converter.slaves())), no_color);
    let ghost b = if dg.is_fault {
        a.push(whole_item(spec_fault_text(dg@), Color::BrightRed))
    } else {
        a
    };
    if dg.is_fault {
        let f = fault_line(dg, no_color);
        push_shown(lines, f, Ghost(a), Ghost(whole_item(spec_fault_text(dg@), Color::BrightRed)), no_color);
    }
    let ghost mut c = b;
    match &dg.mailbox {
        Some(m) => {
            let ml = mailbox_line(m, no_color);
            push_shown(lines, ml, Ghost(b), Ghost(spec_mailbox_item(m@)), no_color);
            proof {
                c = b.push(spec_mailbox_item(m@));
            }
            match &m.sdo {
                Some(sdo) => {
                    let sl = plain_shown(sdo_line(sdo), no_color);
                    push_shown(lines, sl, Ghost(c), Ghost(plain_item(spec_sdo_line(sdo@))), no_color);
                    proof {
                        c = c.push(plain_item(spec_sdo_line(sdo@)));
                    }
                },
                None => {},
            }
        },
        None => {},
    }
    push_pdo_lines(lines, i, &dg.pdo, float_texts, Ghost(c), no_color);
    proof {
        assert(c + spec_pdo_items(i as int, dg@.pdo, float_texts@) =~= items + spec_datagram_items(
            i as int,
            dg@,
            converter.slaves(),
            float_texts@,
        ));
    }
}

/// The pretty listing of a frame, one string per line. `float_texts[i]`
/// holds the texts of the floating-point PDO values of datagram `i`, by entry
/// number. The lines are those of `spec_pretty_items`, one for one, each with
/// its coloured fragments as colored writes them; without colour they are
/// exactly `spec_pretty_lines`.
pub fn pretty_frame_lines(
    frame: &EthercatFrame,
    converter: &PdoConverter,
    float_texts: &Vec<HashMap<u16, String>>,
    no_color: bool,
) -> (lines: Vec<String>)
    ensures
        lines_show(spec_pretty_items(frame@, converter.slaves(), float_texts@), texts(lines@), no_color),
        lines@.len() == spec_pretty_lines(frame@, converter.slaves(), float_texts@).len(),
        no_color ==> texts(lines@) == spec_pretty_lines(frame@, converter.slaves(), float_texts@),
{
    let mut lines: Vec<String> = Vec::new();
    let ghost e: Seq<PrettyLine> = Seq::empty();
    assert(texts(lines@) =~= Seq::empty());
    let mut head = owned("═══ Frame @ ");
    let ts = format_ts(frame.timestamp_ns);
    let ts_c = colorize(ts.as_str(), Color::BrightBlue, no_color);
    head.append(ts_c.as_str());
    head.append(" ═══════════════════════════════");
    proof {
        let item = spec_frame_head_item(frame@);
        lemma_painted_one(ts@, Color::BrightBlue, ts_c@, no_color);
        assert(painted_all(item.frags, seq![ts_c@], no_color));
        assert(head@ =~= (item.render)(seq![ts_c@]));
    }
    push_shown(&mut lines, head, Ghost(e), Ghost(spec_frame_head_item(frame@)), no_color);
    let mut eth = owned("  Eth: ");
    let src = format_mac(&frame.ethernet_src);
    let src_c = colorize(src.as_str(), Color::Cyan, no_color);
    eth.append(src_c.as_str());
    eth.append(" → ");
    let dest = format_mac(&frame.ethernet_dest);
    let dest_c = colorize(dest.as_str(), Color::Cyan, no_color);
    eth.append(dest_c.as_str());
    eth.append("  Ethertype: ");
    let et = format_hex4(frame.ethertype as u64);
    eth.append(et.as_str());
    eth.append("  Len: ");
    let len = u64_to_decimal(frame.frame_length as u64);
    eth.append(len.as_str());
    eth.append("B");
    proof {
        let item = spec_eth_item(frame@);
        lemma_painted_two(src@, Color::Cyan, src_c@, dest@, Color::Cyan, dest_c@, no_color);
        assert(painted_all(item.frags, seq![src_c@, dest_c@], no_color));
        assert(eth@ =~= (item.render)(seq![src_c@, dest_c@]));
    }
    push_shown(&mut lines, eth, Ghost(e.push(spec_frame_head_item(frame@))), Ghost(spec_eth_item(frame@)), no_color);
    let ghost dgs = frame@.datagrams;
    let ghost slaves = converter.slaves();
    let ghost start = seq![spec_frame_head_item(frame@), spec_eth_item(frame@)];
    assert(e.push(spec_frame_head_item(frame@)).push(spec_eth_item(frame@)) =~= start);
    let mut i: usize = 0;
    while i < frame.datagrams.len()
        invariant
            i <= frame.datagrams@.len(),
            dgs == frame@.datagrams,
            dgs.len() == frame.datagrams@.len(),
            slaves == converter.slaves(),
            lines_show(start + spec_datagrams_items(dgs, i as nat, slaves, float_texts@), texts(lines@), no_color),
        decreases frame.datagrams@.len() - i,
    {
        assert(dgs[i as int] == frame.datagrams@[i as int]@);
        let ghost before = start + spec_datagrams_items(dgs, i as nat, slaves, float_texts@);
        push_datagram_lines(&mut lines, i, &frame.datagrams[i], converter, float_texts, Ghost(before), no_color);
        proof {
            assert(before + spec_datagram_items(i as int, dgs[i as int], slaves, float_texts@) =~= start
                + spec_datagrams_items(dgs, (i + 1) as nat, slaves, float_texts@));
        }
        i = i + 1;
    }
    proof {
        assert(start + spec_datagrams_items(dgs, i as nat, slaves, float_texts@) =~= spec_pretty_items(
            frame@,
            slaves,
            float_texts@,
        ));
        if no_color {
            lemma_lines_plain(spec_pretty_items(frame@, slaves, float_texts@), texts(lines@));
        }
    }
    lines
}

/// The slave addresses below `n` that `dom` holds, in ascending order.
pub open spec fn spec_ids_below(dom: Set<u16>, n: nat) -> Seq<u16>
    decreases n,
{
    if n == 0 {
        Seq::empty()
    } else {
        spec_ids_below(dom, (n - 1) as nat) + if dom.contains((n - 1) as u16) {
            seq![(n - 1) as u16]
        } else {
            Seq::empty()
        }
    }
}

/// A line of the summary: a label (blue) padded to 28 characters, then a
/// value in colour `c`.
pub open spec fn spec_summary_row_item(label: Seq<char>, value: u64, c: Color) -> PrettyLine {
    PrettyLine {
        frags: seq![(label, Color::Blue), (spec_decimal(value as nat), c)],
        render: |ps: Seq<Seq<char>>| "  "@ + spec_pad_right(ps[0], 28) + " "@ + ps[1],
    }
}

/// The line of one slave's datagram count in the summary.
pub open spec fn spec_slave_count_line(id: u16, count: u64) -> Seq<char> {
    "    Slave#"@ + spec_pad_right(spec_decimal(id as nat), 6) + " "@ + spec_decimal(count as nat)
}

/// The pretty summary: a blank line, a title (bright yellow), the counters
/// (bright white), the fault count (bright red when there are faults, green
/// otherwise), then, when some slave was seen, a blank line, a heading
/// (bright cyan) and one line per slave in ascending address order, and a
/// closing rule (bright yellow).
pub open spec fn spec_summary_items(stats: ParseStats) -> Seq<PrettyLine> {
    let m = stats.slave_counts@;
    seq![
        plain_item(Seq::empty()),
        whole_item("═══════════ Parsing Summary ═══════════"@, Color::BrightYellow),
        spec_summary_row_item("Total frames:"@, stats.total_frames, Color::BrightWhite),
        spec_summary_row_item("Total datagrams:"@, stats.total_datagrams, Color::BrightWhite),
        spec_summary_row_item("CoE messages:"@, stats.coe_messages, Color::BrightWhite),
        spec_summary_row_item("FoE messages:"@, stats.foe_messages, Color::BrightWhite),
        spec_summary_row_item("EoE messages:"@, stats.eoe_messages, Color::BrightWhite),
        spec_summary_row_item("PDO updates:"@, stats.pdo_updates, Color::BrightWhite),
        spec_summary_row_item(
            "Faults detected:"@,
            stats.fault_count,
            if stats.fault_count > 0 {
                Color::BrightRed
            } else {
                Color::Green
            },
        ),
    ] + (if m.dom().len() > 0 {
        seq![plain_item(Seq::empty()), whole_item("  Slave communication counts:"@, Color::BrightCyan)]
            + spec_ids_below(m.dom(), 65536).map_values(|id: u16| plain_item(spec_slave_count_line(id, m[id])))
    } else {
        Seq::empty()
    }) + seq![whole_item("═════════════════════════════════════════"@, Color::BrightYellow)]
}

/// The pretty summary as plain text.
pub open spec fn spec_summary_lines(stats: ParseStats) -> Seq<Seq<char>> {
    spec_summary_items(stats).map_values(|l: PrettyLine| plain_line(l))
}

/// One counter line of the summary.
fn summary_row(label: &str, value: u64, value_color: Color, no_color: bool) -> (s: String)
    ensures
        line_shows(spec_summary_row_item(label@, value, value_color), s@, no_color),
{
    let mut s = owned("  ");
    let l = colorize(label, Color::Blue, no_color);
    push_padded(&mut s, l.as_str(), 28);
    s.append(" ");
    let v = u64_to_decimal(value);
    let vc = colorize(v.as_str(), value_color, no_color);
    s.append(vc.as_str());
    proof {
        let item = spec_summary_row_item(label@, value, value_color);
        lemma_painted_two(label@, Color::Blue, l@, v@, value_color, vc@, no_color);
        assert(painted_all(item.frags, seq![l@, vc@], no_color));
        assert(s@ =~= (item.render)(seq![l@, vc@]));
    }
    s
}

/// The pretty summary of the statistics, one string per line: the lines of
/// `spec_summary_items`, one for one, each with its coloured fragments as
/// colored writes them; without colour exactly `spec_summary_lines`.
pub fn pretty_summary_lines(stats: &ParseStats, no_color: bool) -> (lines: Vec<String>)
    ensures
        lines_show(spec_summary_items(*stats), texts(lines@), no_color),
        lines@.len() == spec_summary_lines(*stats).len(),
        no_color ==> texts(lines@) == spec_summary_lines(*stats),
{
    let mut lines: Vec<String> = Vec::new();
    assert(texts(lines@) =~= Seq::empty());
    let ghost it: Seq<PrettyLine> = Seq::empty();
    push_shown(&mut lines, plain_shown(String::new(), no_color), Ghost(it), Ghost(plain_item(Seq::empty())), no_color);
    let ghost it = it.push(plain_item(Seq::empty()));
    let title = whole_shown("═══════════ Parsing Summary ═══════════", Color::BrightYellow, no_color);
    push_shown(&mut lines, title, Ghost(it), Ghost(whole_item("═══════════ Parsing Summary ═══════════"@, Color::BrightYellow)), no_color);
    let ghost it = it.push(whole_item("═══════════ Parsing Summary ═══════════"@, Color::BrightYellow));
    let r = summary_row("Total frames:", stats.total_frames, Color::BrightWhite, no_color);
    push_shown(&mut lines, r, Ghost(it), Ghost(spec_summary_row_item("Total frames:"@, stats.total_frames, Color::BrightWhite)), no_color);
    let ghost it = it.push(spec_summary_row_item("Total frames:"@, stats.total_frames, Color::BrightWhite));
    let r = summary_row("Total datagrams:", stats.total_datagrams, Color::BrightWhite, no_color);
    push_shown(&mut lines, r, Ghost(it), Ghost(spec_summary_row_item("Total datagrams:"@, stats.total_datagrams, Color::BrightWhite)), no_color);
    let ghost it = it.push(spec_summary_row_item("Total datagrams:"@, stats.total_datagrams, Color::BrightWhite));
    let r = summary_row("CoE messages:", stats.coe_messages, Color::BrightWhite, no_color);
    push_shown(&mut lines, r, Ghost(it), Ghost(spec_summary_row_item("CoE messages:"@, stats.coe_messages, Color::BrightWhite)), no_color);
    let ghost it = it.push(spec_summary_row_item("CoE messages:"@, stats.coe_messages, Color::BrightWhite));
    let r = summary_row("FoE messages:", stats.foe_messages, Color::BrightWhite, no_color);
    push_shown(&mut lines, r, Ghost(it), Ghost(spec_summary_row_item("FoE messages:"@, stats.foe_messages, Color::BrightWhite)), no_color);
    let ghost it = it.push(spec_summary_row_item("FoE messages:"@, stats.foe_messages, Color::BrightWhite));
    let r = summary_row("EoE messages:", stats.eoe_messages, Color::BrightWhite, no_color);
    push_shown(&mut lines, r, Ghost(it), Ghost(spec_summary_row_item("EoE messages:"@, stats.eoe_messages, Color::BrightWhite)), no_color);
    let ghost it = it.push(spec_summary_row_item("EoE messages:"@, stats.eoe_messages, Color::BrightWhite));
    let r = summary_row("PDO updates:", stats.pdo_updates, Color::BrightWhite, no_color);
    push_shown(&mut lines, r, Ghost(it), Ghost(spec_summary_row_item("PDO updates:"@, stats.pdo_updates, Color::BrightWhite)), no_color);
    let ghost it = it.push(spec_summary_row_item("PDO updates:"@, stats.pdo_updates, Color::BrightWhite));
    let fault_color = if stats.fault_count > 0 {
        Color::BrightRed
    } else {
        Color::Green
    };
    let r = summary_row("Faults detected:", stats.fault_count, fault_color, no_color);
    push_shown(&mut lines, r, Ghost(it), Ghost(spec_summary_row_item("Faults detected:"@, stats.fault_count, fault_color)), no_color);
    let ghost head = it.push(spec_summary_row_item("Faults detected:"@, stats.fault_count, fault_color));
    let ghost m = stats.slave_counts@;
    let ghost g = |id: u16| plain_item(spec_slave_count_line(id, m[id]));
    let ghost mut body: Seq<PrettyLine> = Seq::empty();
    if stats.slave_counts.len() > 0 {
        push_shown(&mut lines, plain_shown(String::new(), no_color), Ghost(head), Ghost(plain_item(Seq::empty())), no_color);
        let ghost h1 = head.push(plain_item(Seq::empty()));
        let sc = whole_shown("  Slave communication counts:", Color::BrightCyan, no_color);
        push_shown(&mut lines, sc, Ghost(h1), Ghost(whole_item("  Slave communication counts:"@, Color::BrightCyan)), no_color);
        let ghost mid = h1.push(whole_item("  Slave communication counts:"@, Color::BrightCyan));
        let mut id: u32 = 0;
        while id < 65536
            invariant
                id <= 65536,
                m == stats.slave_counts@,
                g == (|id: u16| plain_item(spec_slave_count_line(id, m[id]))),
                lines_show(mid + spec_ids_below(m.dom(), id as nat).map_values(g), texts(lines@), no_color),
            decreases 65536 - id,
        {
            let k = id as u16;
            match stats.slave_counts.get(&k) {
                Some(c) => {
                    let mut l = owned("    Slave#");
                    let d = u64_to_decimal(k as u64);
                    push_padded(&mut l, d.as_str(), 6);
                    l.append(" ");
                    let cd = u64_to_decimal(*c);
                    l.append(cd.as_str());
                    assert(l@ =~= spec_slave_count_line(k, m[k]));
                    let ghost before = mid + spec_ids_below(m.dom(), id as nat).map_values(g);
                    push_shown(&mut lines, plain_shown(l, no_color), Ghost(before), Ghost(g(k)), no_color);
                    proof {
                        assert(spec_ids_below(m.dom(), (id + 1) as nat) =~= spec_ids_below(m.dom(), id as nat).push(k));
                        assert(mid + spec_ids_below(m.dom(), (id + 1) as nat).map_values(g) =~= before.push(g(k)));
                    }
                },
                None => {
                    proof {
                        assert(spec_ids_below(m.dom(), (id + 1) as nat) =~= spec_ids_below(m.dom(), id as nat));
                    }
                },
            }
            id = id + 1;
        }
        proof {
            body = seq![plain_item(Seq::empty()), whole_item("  Slave communication counts:"@, Color::BrightCyan)]
                + spec_ids_below(m.dom(), 65536).map_values(g);
            assert(mid + spec_ids_below(m.dom(), 65536).map_values(g) =~= head + body);
        }
    } else {
        assert(head + body =~= head);
    }
    let rule = whole_shown("═════════════════════════════════════════", Color::BrightYellow, no_color);
    push_shown(&mut lines, rule, Ghost(head + body), Ghost(whole_item("═════════════════════════════════════════"@, Color::BrightYellow)), no_color);
    proof {
        assert(m.dom().len() > 0 <==> stats.slave_counts.len() > 0);
        assert((head + body).push(whole_item("═════════════════════════════════════════"@, Color::BrightYellow))
            =~= spec_summary_items(*stats));
        if no_color {
            lemma_lines_plain(spec_summary_items(*stats), texts(lines@));
        }
    }
    lines
}

/// The line of one slave in a template preview, its device name in green.
pub open spec fn spec_preview_slave_item(s: TemplateSlave) -> PrettyLine {
    PrettyLine {
        frags: seq![(s.device_name@, Color::Green)],
        render: |ps: Seq<Seq<char>>|
            "  Slave#"@ + spec_decimal(s.slave_id as nat) + ": "@ + ps[0] + " [vendor=0x"@
                + spec_hex_padded(s.vendor_id as nat, 8) + ", product=0x"@ + spec_hex_padded(
                s.product_code as nat,
                8,
            ) + "] - "@ + spec_decimal(s.registers@.len()) + " registers"@,
    }
}

/// The heading of a template preview.
pub open spec fn spec_preview_head(t: ParseTemplate) -> Seq<char> {
    "Template loaded: "@ + t.production_line@ + " (v"@ + t.version@ + ") - "@ + t.description@
}

/// The preview of a loaded template: its production line, version and
/// description (magenta), then one line per slave.
pub open spec fn spec_preview_items(t: ParseTemplate) -> Seq<PrettyLine> {
    seq![whole_item(spec_preview_head(t), Color::Magenta)] + t.slaves@.map_values(
        |s: TemplateSlave| spec_preview_slave_item(s),
    )
}

/// The preview as plain text.
pub open spec fn spec_preview_lines(t: ParseTemplate) -> Seq<Seq<char>> {
    spec_preview_items(t).map_values(|l: PrettyLine| plain_line(l))
}

/// The preview of a loaded template, one string per line: the lines of
/// `spec_preview_items`, one for one, each with its coloured fragments as
/// colored writes them; without colour exactly `spec_preview_lines`.
pub fn template_preview_lines(t: &ParseTemplate, no_color: bool) -> (lines: Vec<String>)
    ensures
        lines_show(spec_preview_items(*t), texts(lines@), no_color),
        lines@.len() == spec_preview_lines(*t).len(),
        no_color ==> texts(lines@) == spec_preview_lines(*t),
{
    let mut lines: Vec<String> = Vec::new();
    assert(texts(lines@) =~= Seq::empty());
    let mut head = owned("Template loaded: ");
    head.append(t.production_line.as_str());
    head.append(" (v");
    head.append(t.version.as_str());
    head.append(") - ");
    head.append(t.description.as_str());
    let ghost first = whole_item(spec_preview_head(*t), Color::Magenta);
    assert(head@ =~= spec_preview_head(*t));
    let h = whole_shown(head.as_str(), Color::Magenta, no_color);
    push_shown(&mut lines, h, Ghost(Seq::empty()), Ghost(first), no_color);
    let ghost f = |s: TemplateSlave| spec_preview_slave_item(s);
    assert(Seq::<PrettyLine>::empty().push(first) =~= seq![first]);
    let mut i: usize = 0;
    while i < t.slaves.len()
        invariant
            i <= t.slaves@.len(),
            first == whole_item(spec_preview_head(*t), Color::Magenta),
            f == (|s: TemplateSlave| spec_preview_slave_item(s)),
            lines_show(seq![first] + t.slaves@.take(i as int).map_values(f), texts(lines@), no_color),
        decreases t.slaves@.len() - i,
    {
        let sl = &t.slaves[i];
        let mut l = owned("  Slave#");
        let id = u64_to_decimal(sl.slave_id as u64);
        l.append(id.as_str());
        l.append(": ");
        let name = colorize(sl.device_name.as_str(), Color::Green, no_color);
        l.append(name.as_str());
        l.append(" [vendor=0x");
        let v = hex_padded(sl.vendor_id as u64, 8);
        l.append(v.as_str());
        l.append(", product=0x");
        let p = hex_padded(sl.product_code as u64, 8);
        l.append(p.as_str());
        l.append("] - ");
        let n = u64_to_decimal(sl.registers.len() as u64);
        l.append(n.as_str());
        l.append(" registers");
        proof {
            let item = f(t.slaves@[i as int]);
            lemma_painted_one(sl.device_name@, Color::Green, name@, no_color);
            assert(painted_all(item.frags, seq![name@], no_color));
            assert(l@ =~= (item.render)(seq![name@]));
        }
        let ghost before = seq![first] + t.slaves@.take(i as int).map_values(f);
        push_shown(&mut lines, l, Ghost(before), Ghost(f(t.slaves@[i as int])), no_color);
        proof {
            assert(seq![first] + t.slaves@.take(i + 1).map_values(f) =~= before.push(f(t.slaves@[i as int])));
        }
        i = i + 1;
    }
    proof {
        assert(t.slaves@.take(i as int) =~= t.slaves@);
        assert(seq![first] + t.slaves@.map_values(f) =~= spec_preview_items(*t));
        if no_color {
            lemma_lines_plain(spec_preview_items(*t), texts(lines@));
        }
    }
    lines
}

} // verus!
