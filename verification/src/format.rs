//! The formatter: name shortening, zero-row suppression, and fixed-width
//! rendering of header and data rows.

use vstd::prelude::*;
use indexmap::IndexMap;
use crate::rate::{rate, spec_rate};
use crate::snapshot::{index_map_entries, snapshot_get, spec_lookup};
use crate::text::{
    center, chars_of, copy_range, dec_digits, digit_char, find_char, find_char_at, find_sub,
    find_sub_at, lemma_find_char, pad_left, push_all, push_centered, push_padded, push_u64_digits,
    string_from_chars,
};

verus! {

/// The marker that identifies a long native device identifier.
pub open spec fn tcpip_marker() -> Seq<char> {
    seq!['T', 'C', 'P', 'I', 'P', '_', '{']
}

/// A name with everything up to and including its first backslash removed.
pub open spec fn stripped_tail(name: Seq<char>) -> Seq<char> {
    let start = match find_char(name, '\\') {
        Some(i) => i + 1 as nat,
        None => 0 as nat,
    };
    name.skip(start as int)
}

/// How a display name is abbreviated.
///
/// A name of at most 16 characters passes through.  A longer name is first
/// stripped of everything up to and including the first backslash; if the
/// rest contains `TCPIP_{` with more than eleven characters from the marker
/// on, it collapses to the eleven characters starting at the marker, `..`,
/// and the last five characters.  Failing that, a rest longer than 13
/// characters is cut to its first 13 plus `...`; anything else leaves the
/// whole original name unchanged.
pub open spec fn spec_shorten(name: Seq<char>) -> Seq<char> {
    if name.len() > 16 {
        let t = stripped_tail(name);
        let marked = match find_sub(t, tcpip_marker()) {
            Some(mi) => mi + 11 < t.len(),
            None => false,
        };
        if marked {
            let mi = find_sub(t, tcpip_marker()).unwrap();
            t.subrange(mi as int, mi as int + 11) + seq!['.', '.'] + t.skip(t.len() - 5)
        } else if t.len() > 13 {
            t.take(13) + seq!['.', '.', '.']
        } else {
            name
        }
    } else {
        name
    }
}

/// Abbreviates an interface name for the header line.
pub fn shorten_name(name: &str) -> (r: String)
    ensures
        r@ == spec_shorten(name@),
{
    let cs = chars_of(name);
    let n = cs.len();
    if n <= 16 {
        return name.to_owned();
    }
    let start: usize = match find_char_at(&cs, '\\') {
        Some(i) => {
            proof {
                lemma_find_char(cs@, '\\');
            }
            i + 1
        },
        None => 0,
    };
    let t = copy_range(&cs, start, n);
    let marker = chars_of("TCPIP_{");
    proof {
        reveal_strlit("TCPIP_{");
        assert(marker@ =~= tcpip_marker());
    }
    let tn = t.len();
    match find_sub_at(&t, &marker) {
        Some(mi) => {
            proof {
                crate::text::lemma_find_sub(t@, marker@);
            }
            if tn - mi > 11 {
                let mut out = copy_range(&t, mi, mi + 11);
                out.push('.');
                out.push('.');
                let suffix = copy_range(&t, tn - 5, tn);
                push_all(&mut out, &suffix);
                proof {
                    assert(t@.skip(tn as int - 5) =~= t@.subrange(tn as int - 5, tn as int));
                    assert(out@ =~= spec_shorten(name@));
                }
                return string_from_chars(&out);
            }
        },
        None => {},
    }
    if tn > 13 {
        let mut out = copy_range(&t, 0, 13);
        out.push('.');
        out.push('.');
        out.push('.');
        proof {
            assert(t@.take(13) =~= t@.subrange(0, 13));
            assert(out@ =~= spec_shorten(name@));
        }
        string_from_chars(&out)
    } else {
        name.to_owned()
    }
}

/// Whether an interface is kept by zero filtering: present in the snapshot
/// with at least one non-zero counter.
pub open spec fn keeps_nonzero(es: Seq<(Seq<char>, (u64, u64))>, name: Seq<char>) -> bool {
    match spec_lookup(es, name) {
        Some(c) => c.0 != 0 || c.1 != 0,
        None => false,
    }
}

/// The interfaces that survive zero filtering, in their given order.
pub open spec fn spec_filter_zero(
    es: Seq<(Seq<char>, (u64, u64))>,
    interfaces: Seq<Seq<char>>,
) -> Seq<Seq<char>> {
    interfaces.filter(|name: Seq<char>| keeps_nonzero(es, name))
}

/// Keeps the interfaces whose counters in `stats` are not both zero,
/// dropping those absent from `stats`.
pub fn filter_zero_counters(
    stats: &IndexMap<String, (u64, u64)>,
    interfaces: &Vec<String>,
) -> (r: Vec<String>)
    ensures
        r.deep_view() == spec_filter_zero(index_map_entries(*stats), interfaces.deep_view()),
{
    let ghost es = index_map_entries(*stats);
    let ghost pred = |name: Seq<char>| keeps_nonzero(es, name);
    let n = interfaces.len();
    let mut r: Vec<String> = Vec::new();
    let mut i: usize = 0;
    proof {
        assert(interfaces.deep_view().take(0) =~= Seq::<Seq<char>>::empty());
        assert(r.deep_view() =~~= Seq::<Seq<char>>::empty().filter(pred));
    }
    while i < n
        invariant
            i <= n,
            n == interfaces@.len(),
            es == index_map_entries(*stats),
            pred == (|name: Seq<char>| keeps_nonzero(es, name)),
            r.deep_view() == interfaces.deep_view().take(i as int).filter(pred),
        decreases n - i,
    {
        let ghost pre = interfaces.deep_view().take(i as int);
        let ghost now = interfaces.deep_view().take(i as int + 1);
        proof {
            assert(now.drop_last() =~= pre);
            assert(now.last() == interfaces.deep_view()[i as int]);
            assert(interfaces.deep_view()[i as int] == interfaces@[i as int]@);
        }
        let name = &interfaces[i];
        let keep = match snapshot_get(stats, name) {
            Some(c) => c.0 != 0 || c.1 != 0,
            None => false,
        };
        proof {
            assert(pred(name@) == keep);
        }
        if keep {
            let ghost r0 = r.deep_view();
            r.push(name.clone());
            proof {
                reveal_with_fuel(Seq::filter, 2);
                assert(r.deep_view() =~~= r0.push(name@));
                assert(now.filter(pred) == pre.filter(pred).push(name@));
            }
        } else {
            proof {
                reveal_with_fuel(Seq::filter, 2);
                assert(now.filter(pred) == pre.filter(pred));
            }
        }
        i += 1;
    }
    proof {
        assert(interfaces.deep_view().take(n as int) =~= interfaces.deep_view());
    }
    r
}

/// A rate shown with two decimal places: whole part, point, two digits.
pub open spec fn fmt_fixed2(centi: nat) -> Seq<char> {
    dec_digits(centi / 100) + seq!['.'] + seq![
        digit_char((centi / 10) % 10),
        digit_char(centi % 10),
    ]
}

/// Appends `centi` hundredths as a fixed two-decimal number.
fn push_fixed2(out: &mut Vec<char>, centi: u64)
    ensures
        final(out)@ == old(out)@ + fmt_fixed2(centi as nat),
{
    push_u64_digits(out, centi / 100);
    out.push('.');
    out.push(crate::text::char_of_digit(((centi / 10) % 10) as u8));
    out.push(crate::text::char_of_digit((centi % 10) as u8));
    proof {
        assert(out@ =~= old(out)@ + fmt_fixed2(centi as nat));
    }
}

/// The interfaces that one header or row actually shows: all of them, or
/// only those passing zero filtering against the reference snapshot.
pub open spec fn spec_displayed(
    es: Seq<(Seq<char>, (u64, u64))>,
    interfaces: Seq<Seq<char>>,
    hide_zero_counters: bool,
) -> Seq<Seq<char>> {
    if hide_zero_counters {
        spec_filter_zero(es, interfaces)
    } else {
        interfaces
    }
}

/// The name cells of the header from position `i` on: each shortened name
/// centered to 18 characters, two spaces between columns.
pub open spec fn header_names_from(names: Seq<Seq<char>>, i: int) -> Seq<char>
    decreases names.len() - i,
    when 0 <= i <= names.len()
{
    if i >= names.len() {
        Seq::empty()
    } else {
        center(spec_shorten(names[i]), 18) + (if i < names.len() - 1 {
            seq![' ', ' ']
        } else {
            Seq::<char>::empty()
        }) + header_names_from(names, i + 1)
    }
}

/// One column-label cell: `KB/s in` and `KB/s out`, each right-aligned to
/// eight characters, two spaces apart.
pub open spec fn kbs_cell() -> Seq<char> {
    pad_left("KB/s in"@, 8) + seq![' ', ' '] + pad_left("KB/s out"@, 8)
}

/// The column-label cells for `n` interfaces from position `i` on.
pub open spec fn kbs_cells_from(n: int, i: int) -> Seq<char>
    decreases n - i,
    when i <= n
{
    if i >= n {
        Seq::empty()
    } else {
        kbs_cell() + (if i < n - 1 {
            seq![' ', ' ']
        } else {
            Seq::<char>::empty()
        }) + kbs_cells_from(n, i + 1)
    }
}

/// The full header block: a line of names and a line of column labels, or
/// nothing at all when no interface is displayed.
pub open spec fn spec_headers(
    es: Seq<(Seq<char>, (u64, u64))>,
    interfaces: Seq<Seq<char>>,
    hide_zero_counters: bool,
) -> Seq<char> {
    let d = spec_displayed(es, interfaces, hide_zero_counters);
    if d.len() == 0 {
        Seq::empty()
    } else {
        header_names_from(d, 0) + seq!['\n'] + kbs_cells_from(d.len() as int, 0) + seq!['\n']
    }
}

/// The data cells of one row from position `i` on: for each interface
/// present in both snapshots, its two rates right-aligned to eight
/// characters; an interface missing from either snapshot leaves nothing,
/// not even the column separator that would have followed it.
pub open spec fn row_cells_from(
    pes: Seq<(Seq<char>, (u64, u64))>,
    ces: Seq<(Seq<char>, (u64, u64))>,
    names: Seq<Seq<char>>,
    i: int,
) -> Seq<char>
    decreases names.len() - i,
    when 0 <= i <= names.len()
{
    if i >= names.len() {
        Seq::empty()
    } else {
        (match spec_rate(pes, ces, names[i]) {
            Some(rc) => pad_left(fmt_fixed2(rc.0), 8) + seq![' ', ' '] + pad_left(
                fmt_fixed2(rc.1),
                8,
            ) + (if i < names.len() - 1 {
                seq![' ', ' ']
            } else {
                Seq::<char>::empty()
            }),
            None => Seq::<char>::empty(),
        }) + row_cells_from(pes, ces, names, i + 1)
    }
}

/// One data row: the cells of the displayed interfaces (filtered against
/// the current snapshot) and a final newline, which is written even when
/// nothing else is.
pub open spec fn spec_stats_row(
    pes: Seq<(Seq<char>, (u64, u64))>,
    ces: Seq<(Seq<char>, (u64, u64))>,
    interfaces: Seq<Seq<char>>,
    hide_zero_counters: bool,
) -> Seq<char> {
    row_cells_from(pes, ces, spec_displayed(ces, interfaces, hide_zero_counters), 0) + seq!['\n']
}

/// Copies a list of names.
fn clone_names(v: &Vec<String>) -> (r: Vec<String>)
    ensures
        r.deep_view() == v.deep_view(),
{
    let n = v.len();
    let mut r: Vec<String> = Vec::new();
    let mut i: usize = 0;
    while i < n
        invariant
            i <= n,
            n == v@.len(),
            r.deep_view() == v.deep_view().take(i as int),
        decreases n - i,
    {
        let ghost r0 = r.deep_view();
        r.push(v[i].clone());
        proof {
            assert(r.deep_view() =~~= r0.push(v@[i as int]@));
            assert(v.deep_view().take(i as int + 1) =~= v.deep_view().take(i as int).push(
                v.deep_view()[i as int],
            ));
        }
        i += 1;
    }
    proof {
        assert(v.deep_view().take(n as int) =~= v.deep_view());
    }
    r
}

/// Renders the header block for the given interfaces into `writer`: the
/// shortened names, then the column labels, each interface 18 characters
/// wide with two spaces between columns.  With zero filtering enabled,
/// interfaces whose counters in `stats` are both zero (or absent) are left
/// out; if nothing remains, nothing is written.
pub fn print_headers(
    interfaces: &Vec<String>,
    writer: &mut String,
    hide_zero_counters: bool,
    stats: &IndexMap<String, (u64, u64)>,
)
    ensures
        final(writer)@ == old(writer)@ + spec_headers(
            index_map_entries(*stats),
            interfaces.deep_view(),
            hide_zero_counters,
        ),
{
    let ghost es = index_map_entries(*stats);
    let displayed: Vec<String> = if hide_zero_counters {
        filter_zero_counters(stats, interfaces)
    } else {
        clone_names(interfaces)
    };
    let ghost d = spec_displayed(es, interfaces.deep_view(), hide_zero_counters);
    proof {
        assert(displayed.deep_view() == d);
    }
    let n = displayed.len();
    if n == 0 {
        return;
    }
    let mut out: Vec<char> = Vec::new();
    let mut i: usize = 0;
    proof {
        assert(out@ + header_names_from(d, 0) =~= header_names_from(d, 0));
    }
    while i < n
        invariant
            i <= n,
            n == displayed@.len(),
            displayed.deep_view() == d,
            n == d.len(),
            out@ + header_names_from(d, i as int) == header_names_from(d, 0),
        decreases n - i,
    {
        let ghost out0 = out@;
        proof {
            assert(d[i as int] == displayed@[i as int]@);
        }
        let short = shorten_name(displayed[i].as_str());
        let sc = chars_of(short.as_str());
        push_centered(&mut out, &sc, 18);
        if i < n - 1 {
            out.push(' ');
            out.push(' ');
        }
        proof {
            assert(out@ + header_names_from(d, i as int + 1) =~= out0 + header_names_from(
                d,
                i as int,
            ));
        }
        i += 1;
    }
    out.push('\n');
    let kbs_in = chars_of("KB/s in");
    let kbs_out = chars_of("KB/s out");
    let ghost base = out@;
    let mut j: usize = 0;
    proof {
        assert(out@ + kbs_cells_from(n as int, 0) =~= base + kbs_cells_from(n as int, 0));
    }
    while j < n
        invariant
            j <= n,
            kbs_in@ == "KB/s in"@,
            kbs_out@ == "KB/s out"@,
            out@ + kbs_cells_from(n as int, j as int) == base + kbs_cells_from(n as int, 0),
        decreases n - j,
    {
        let ghost out0 = out@;
        push_padded(&mut out, &kbs_in, 8);
        out.push(' ');
        out.push(' ');
        push_padded(&mut out, &kbs_out, 8);
        if j < n - 1 {
            out.push(' ');
            out.push(' ');
        }
        proof {
            assert(out@ + kbs_cells_from(n as int, j as int + 1) =~= out0 + kbs_cells_from(
                n as int,
                j as int,
            ));
        }
        j += 1;
    }
    out.push('\n');
    proof {
        assert(out@ =~= spec_headers(es, interfaces.deep_view(), hide_zero_counters));
    }
    let rendered = string_from_chars(&out);
    writer.append(rendered.as_str());
}

/// Renders one data row into `writer`: for every displayed interface
/// present in both snapshots, the received and transmitted rates of the
/// tick, each right-aligned to eight characters with two decimal places;
/// a final newline always ends the row.  With zero filtering enabled the
/// displayed set is recomputed against the current snapshot.
pub fn print_stats(
    previous: &IndexMap<String, (u64, u64)>,
    current: &IndexMap<String, (u64, u64)>,
    interfaces: &Vec<String>,
    writer: &mut String,
    hide_zero_counters: bool,
)
    ensures
        final(writer)@ == old(writer)@ + spec_stats_row(
            index_map_entries(*previous),
            index_map_entries(*current),
            interfaces.deep_view(),
            hide_zero_counters,
        ),
{
    let ghost pes = index_map_entries(*previous);
    let ghost ces = index_map_entries(*current);
    let displayed: Vec<String> = if hide_zero_counters {
        filter_zero_counters(current, interfaces)
    } else {
        clone_names(interfaces)
    };
    let ghost d = spec_displayed(ces, interfaces.deep_view(), hide_zero_counters);
    proof {
        assert(displayed.deep_view() == d);
    }
    let n = displayed.len();
    let mut out: Vec<char> = Vec::new();
    let mut i: usize = 0;
    proof {
        assert(out@ + row_cells_from(pes, ces, d, 0) =~= row_cells_from(pes, ces, d, 0));
    }
    while i < n
        invariant
            i <= n,
            n == displayed@.len(),
            displayed.deep_view() == d,
            n == d.len(),
            pes == index_map_entries(*previous),
            ces == index_map_entries(*current),
            out@ + row_cells_from(pes, ces, d, i as int) == row_cells_from(pes, ces, d, 0),
        decreases n - i,
    {
        let ghost out0 = out@;
        proof {
            assert(d[i as int] == displayed@[i as int]@);
        }
        match rate(previous, current, &displayed[i]) {
            Some(rc) => {
                let mut rx_cell: Vec<char> = Vec::new();
                push_fixed2(&mut rx_cell, rc.0);
                push_padded(&mut out, &rx_cell, 8);
                out.push(' ');
                out.push(' ');
                let mut tx_cell: Vec<char> = Vec::new();
                push_fixed2(&mut tx_cell, rc.1);
                push_padded(&mut out, &tx_cell, 8);
                if i < n - 1 {
                    out.push(' ');
                    out.push(' ');
                }
            },
            None => {},
        }
        proof {
            assert(out@ + row_cells_from(pes, ces, d, i as int + 1) =~= out0 + row_cells_from(
                pes,
                ces,
                d,
                i as int,
            ));
        }
        i += 1;
    }
    out.push('\n');
    proof {
        assert(out@ =~= spec_stats_row(pes, ces, interfaces.deep_view(), hide_zero_counters));
    }
    let rendered = string_from_chars(&out);
    writer.append(rendered.as_str());
}

/// Name shortening leaves a name of sixteen characters or fewer unchanged.
pub proof fn lemma_shorten_keeps_short_names(name: Seq<char>)
    requires
        name.len() <= 16,
    ensures
        spec_shorten(name) == name,
{
}

/// A name longer than sixteen characters whose stripped tail contains the
/// `TCPIP_{` marker with more than eleven characters from the marker on
/// collapses to the eleven characters starting at the marker, two dots,
/// and the tail's last five characters: eighteen characters in all.
pub proof fn lemma_shorten_collapses_marked_names(name: Seq<char>)
    requires
        name.len() > 16,
        find_sub(stripped_tail(name), tcpip_marker()) is Some,
        find_sub(stripped_tail(name), tcpip_marker()).unwrap() + 11 < stripped_tail(name).len(),
    ensures
        ({
            let t = stripped_tail(name);
            let mi = find_sub(t, tcpip_marker()).unwrap() as int;
            spec_shorten(name) == t.subrange(mi, mi + 11) + seq!['.', '.'] + t.skip(t.len() - 5)
        }),
        spec_shorten(name).len() == 18,
{
    let t = stripped_tail(name);
    let mi = find_sub(t, tcpip_marker()).unwrap() as int;
    assert(t.subrange(mi, mi + 11).len() == 11);
    assert(t.skip(t.len() - 5).len() == 5);
}

/// With zero filtering enabled, an interface whose counters are both zero,
/// or which is absent from the reference snapshot, never appears among the
/// displayed interfaces.
pub proof fn lemma_zero_filtering_hides(
    es: Seq<(Seq<char>, (u64, u64))>,
    interfaces: Seq<Seq<char>>,
    name: Seq<char>,
)
    requires
        spec_lookup(es, name) == Some((0u64, 0u64)) || spec_lookup(es, name) is None,
    ensures
        !spec_displayed(es, interfaces, true).contains(name),
{
    let pred = |n: Seq<char>| keeps_nonzero(es, n);
    let d = spec_displayed(es, interfaces, true);
    if d.contains(name) {
        let i = choose|i: int| 0 <= i < d.len() && d[i] == name;
        interfaces.lemma_filter_pred(pred, i);
        assert(keeps_nonzero(es, name));
    }
}

/// With zero filtering enabled, an interface present in the reference
/// snapshot with at least one non-zero counter is still displayed.
pub proof fn lemma_zero_filtering_keeps_active(
    es: Seq<(Seq<char>, (u64, u64))>,
    interfaces: Seq<Seq<char>>,
    i: int,
)
    requires
        0 <= i < interfaces.len(),
        keeps_nonzero(es, interfaces[i]),
    ensures
        spec_displayed(es, interfaces, true).contains(interfaces[i]),
{
    let pred = |n: Seq<char>| keeps_nonzero(es, n);
    interfaces.lemma_filter_contains(pred, i);
}

/// With zero filtering disabled, every selected interface is displayed,
/// in the given order.
pub proof fn lemma_no_filtering_shows_all(
    es: Seq<(Seq<char>, (u64, u64))>,
    interfaces: Seq<Seq<char>>,
)
    ensures
        spec_displayed(es, interfaces, false) == interfaces,
{
}

} // verus!
