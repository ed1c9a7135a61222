//! Selection resolution: which interfaces one run displays, fixed once at
//! startup from the initial snapshot and the user's flags.

use vstd::prelude::*;
use indexmap::IndexMap;
use crate::snapshot::{entry_names, index_map_entries, snapshot_entry_at, snapshot_len};
use crate::text::{chars_of, spec_starts_with_lo, spec_trim, starts_with_lo, string_from_chars, trim_chars};

verus! {

/// The comma-separated entries of `s[i..]`, each trimmed, given the partial
/// entry `cur` and the entries `acc` already completed.  Empty entries are
/// kept, so the list always has one entry more than it has commas.
pub open spec fn split_commas_from(
    s: Seq<char>,
    i: int,
    cur: Seq<char>,
    acc: Seq<Seq<char>>,
) -> Seq<Seq<char>>
    decreases s.len() - i,
    when 0 <= i <= s.len()
{
    if i >= s.len() {
        acc.push(spec_trim(cur))
    } else if s[i] == ',' {
        split_commas_from(s, i + 1, Seq::empty(), acc.push(spec_trim(cur)))
    } else {
        split_commas_from(s, i + 1, cur.push(s[i]), acc)
    }
}

/// The entries of a comma-separated interface list, trimmed, in order.
pub open spec fn spec_split_interfaces(s: Seq<char>) -> Seq<Seq<char>> {
    split_commas_from(s, 0, Seq::empty(), Seq::empty())
}

/// Splits a comma-separated interface list, trimming each entry.
pub fn split_interfaces(s: &str) -> (r: Vec<String>)
    ensures
        r.deep_view() == spec_split_interfaces(s@),
{
    let cs = chars_of(s);
    let n = cs.len();
    let mut acc: Vec<String> = Vec::new();
    let mut cur: Vec<char> = Vec::new();
    let mut i: usize = 0;
    proof {
        assert(acc.deep_view() =~~= Seq::<Seq<char>>::empty());
    }
    while i < n
        invariant
            i <= n,
            n == cs@.len(),
            cs@ == s@,
            spec_split_interfaces(s@) == split_commas_from(s@, i as int, cur@, acc.deep_view()),
        decreases n - i,
    {
        let ghost acc0 = acc.deep_view();
        let ghost cur0 = cur@;
        if cs[i] == ',' {
            let entry = trim_chars(&cur);
            acc.push(string_from_chars(&entry));
            cur = Vec::new();
            proof {
                assert(acc.deep_view() =~~= acc0.push(spec_trim(cur0)));
            }
        } else {
            cur.push(cs[i]);
        }
        i += 1;
    }
    let ghost acc0 = acc.deep_view();
    let ghost cur0 = cur@;
    let entry = trim_chars(&cur);
    acc.push(string_from_chars(&entry));
    proof {
        assert(acc.deep_view() =~~= acc0.push(spec_trim(cur0)));
    }
    acc
}

/// The interface names of a snapshot, in snapshot order.
pub fn snapshot_names(stats: &IndexMap<String, (u64, u64)>) -> (r: Vec<String>)
    ensures
        r.deep_view() == entry_names(index_map_entries(*stats)),
{
    let ghost names = entry_names(index_map_entries(*stats));
    let n = snapshot_len(stats);
    let mut r: Vec<String> = Vec::new();
    let mut i: usize = 0;
    proof {
        assert(r.deep_view() =~~= names.take(0));
    }
    while i < n
        invariant
            i <= n,
            n == index_map_entries(*stats).len(),
            names == entry_names(index_map_entries(*stats)),
            r.deep_view() == names.take(i as int),
        decreases n - i,
    {
        match snapshot_entry_at(stats, i) {
            Some(e) => {
                let ghost r0 = r.deep_view();
                r.push(e.0);
                proof {
                    assert(r.deep_view() =~~= r0.push(names[i as int]));
                    assert(names.take(i as int + 1) =~= names.take(i as int).push(
                        names[i as int],
                    ));
                }
            },
            None => {
                proof {
                    assert(false);
                }
            },
        }
        i += 1;
    }
    proof {
        assert(names.take(n as int) =~= names);
    }
    r
}

/// Which interfaces to display, in priority order.  Monitoring
/// all interfaces takes every snapshot name in order; an explicit list wins
/// next, split on commas and trimmed, duplicates and unknown names allowed
/// through; the loopback flag currently behaves like monitoring all; by
/// default every snapshot name not starting with `lo` is taken, in order.
pub open spec fn spec_selection(
    es: Seq<(Seq<char>, (u64, u64))>,
    monitor_all: bool,
    explicit: Option<Seq<char>>,
    monitor_loopback: bool,
) -> Seq<Seq<char>> {
    if monitor_all {
        entry_names(es)
    } else if explicit is Some {
        spec_split_interfaces(explicit.unwrap())
    } else if monitor_loopback {
        entry_names(es)
    } else {
        entry_names(es).filter(|n: Seq<char>| !spec_starts_with_lo(n))
    }
}

/// Resolves the fixed interface selection for one run from the initial
/// snapshot and the user's flags.
pub fn resolve_selection(
    stats: &IndexMap<String, (u64, u64)>,
    monitor_all: bool,
    interfaces: Option<&String>,
    monitor_loopback: bool,
) -> (r: Vec<String>)
    ensures
        r.deep_view() == spec_selection(
            index_map_entries(*stats),
            monitor_all,
            match interfaces {
                Some(s) => Some(s@),
                None => None,
            },
            monitor_loopback,
        ),
{
    let ghost es = index_map_entries(*stats);
    if monitor_all {
        snapshot_names(stats)
    } else if let Some(list) = interfaces {
        split_interfaces(list.as_str())
    } else if monitor_loopback {
        snapshot_names(stats)
    } else {
        let ghost names = entry_names(es);
        let ghost pred = |n: Seq<char>| !spec_starts_with_lo(n);
        let all = snapshot_names(stats);
        let n = all.len();
        let mut r: Vec<String> = Vec::new();
        let mut i: usize = 0;
        proof {
            assert(names.take(0) =~= Seq::<Seq<char>>::empty());
            assert(r.deep_view() =~~= Seq::<Seq<char>>::empty().filter(pred));
        }
        while i < n
            invariant
                i <= n,
                n == all@.len(),
                all.deep_view() == names,
                pred == (|n: Seq<char>| !spec_starts_with_lo(n)),
                r.deep_view() == names.take(i as int).filter(pred),
            decreases n - i,
        {
            let ghost pre = names.take(i as int);
            let ghost now = names.take(i as int + 1);
            proof {
                assert(now.drop_last() =~= pre);
                assert(now.last() == names[i as int]);
                assert(names[i as int] == all@[i as int]@);
            }
            let name_chars = chars_of(all[i].as_str());
            let is_lo = starts_with_lo(&name_chars);
            proof {
                assert(pred(names[i as int]) == !is_lo);
            }
            if !is_lo {
                let ghost r0 = r.deep_view();
                r.push(all[i].clone());
                proof {
                    reveal_with_fuel(Seq::filter, 2);
                    assert(r.deep_view() =~~= r0.push(names[i as int]));
                    assert(now.filter(pred) == pre.filter(pred).push(names[i as int]));
                }
            } else {
                proof {
                    reveal_with_fuel(Seq::filter, 2);
                    assert(now.filter(pred) == pre.filter(pred));
                }
            }
            i += 1;
        }
        proof {
            assert(names.take(n as int) =~= names);
        }
        r
    }
}

/// The selection of a run with no flags at all.
pub open spec fn spec_default_selection(es: Seq<(Seq<char>, (u64, u64))>) -> Seq<Seq<char>> {
    spec_selection(es, false, None, false)
}

/// Every member of a filtered sequence comes from some source position
/// satisfying the predicate.
proof fn lemma_filter_member_source(s: Seq<Seq<char>>, pred: spec_fn(Seq<char>) -> bool, i: int)
    requires
        0 <= i < s.filter(pred).len(),
    ensures
        exists|k: int| 0 <= k < s.len() && s[k] == s.filter(pred)[i] && pred(s[k]),
    decreases s.len(),
{
    reveal_with_fuel(Seq::filter, 2);
    let f = s.filter(pred);
    let d = s.drop_last();
    let fd = d.filter(pred);
    if pred(s.last()) {
        if i < fd.len() {
            lemma_filter_member_source(d, pred, i);
            let k = choose|k: int| 0 <= k < d.len() && d[k] == fd[i] && pred(d[k]);
            assert(s[k] == d[k]);
        } else {
            assert(s[s.len() - 1] == f[i]);
        }
    } else {
        lemma_filter_member_source(d, pred, i);
        let k = choose|k: int| 0 <= k < d.len() && d[k] == fd[i] && pred(d[k]);
        assert(s[k] == d[k]);
    }
}

/// Filtering preserves relative order: two filtered members in their order
/// come from two source positions in the same order.
proof fn lemma_filter_keeps_order(s: Seq<Seq<char>>, pred: spec_fn(Seq<char>) -> bool, i: int, j: int)
    requires
        0 <= i < j < s.filter(pred).len(),
    ensures
        exists|ki: int, kj: int|
            0 <= ki < kj < s.len() && s[ki] == s.filter(pred)[i] && s[kj] == s.filter(pred)[j],
    decreases s.len(),
{
    reveal_with_fuel(Seq::filter, 2);
    let f = s.filter(pred);
    let d = s.drop_last();
    let fd = d.filter(pred);
    if pred(s.last()) {
        if j < fd.len() {
            lemma_filter_keeps_order(d, pred, i, j);
            let (ki, kj) = choose|ki: int, kj: int|
                0 <= ki < kj < d.len() && d[ki] == fd[i] && d[kj] == fd[j];
            assert(s[ki] == d[ki] && s[kj] == d[kj]);
        } else {
            lemma_filter_member_source(d, pred, i);
            let ki = choose|k: int| 0 <= k < d.len() && d[k] == fd[i] && pred(d[k]);
            let kj = s.len() - 1;
            assert(s[ki] == d[ki]);
            assert(s[kj] == f[j]);
        }
    } else {
        lemma_filter_keeps_order(d, pred, i, j);
        let (ki, kj) = choose|ki: int, kj: int|
            0 <= ki < kj < d.len() && d[ki] == fd[i] && d[kj] == fd[j];
        assert(s[ki] == d[ki] && s[kj] == d[kj]);
    }
}

/// The default selection (no flags given) excludes every interface name
/// starting with `lo` and keeps every other snapshot name.
pub proof fn lemma_default_selection_excludes_loopback(es: Seq<(Seq<char>, (u64, u64))>)
    ensures
        spec_default_selection(es) == entry_names(es).filter(
            |n: Seq<char>| !spec_starts_with_lo(n),
        ),
        forall|i: int|
            0 <= i < spec_default_selection(es).len() ==> !spec_starts_with_lo(
                #[trigger] spec_default_selection(es)[i],
            ),
        forall|i: int|
            0 <= i < entry_names(es).len() && !spec_starts_with_lo(#[trigger] entry_names(es)[i])
                ==> spec_default_selection(es).contains(entry_names(es)[i]),
{
    let pred = |n: Seq<char>| !spec_starts_with_lo(n);
    let names = entry_names(es);
    let sel = spec_default_selection(es);
    assert forall|i: int| 0 <= i < sel.len() implies !spec_starts_with_lo(sel[i]) by {
        names.lemma_filter_pred(pred, i);
    }
    assert forall|i: int|
        0 <= i < names.len() && !spec_starts_with_lo(names[i]) implies sel.contains(
        names[i],
    ) by {
        names.lemma_filter_contains(pred, i);
    }
}

/// The default selection preserves the snapshot's relative order: any two
/// of its members, in selection order, stand at snapshot-name positions in
/// that same order.
pub proof fn lemma_default_selection_keeps_order(es: Seq<(Seq<char>, (u64, u64))>, i: int, j: int)
    requires
        0 <= i < j < spec_default_selection(es).len(),
    ensures
        exists|ki: int, kj: int|
            0 <= ki < kj < entry_names(es).len() && entry_names(es)[ki]
                == spec_default_selection(es)[i] && entry_names(es)[kj]
                == spec_default_selection(es)[j],
{
    let pred = |n: Seq<char>| !spec_starts_with_lo(n);
    let names = entry_names(es);
    let sel = spec_default_selection(es);
    lemma_filter_keeps_order(names, pred, i, j);
    let (ki, kj) = choose|ki: int, kj: int|
        0 <= ki < kj < names.len() && names[ki] == names.filter(pred)[i] && names[kj]
            == names.filter(pred)[j];
    assert(0 <= ki < kj < names.len() && names[ki] == sel[i] && names[kj] == sel[j]);
}

} // verus!
