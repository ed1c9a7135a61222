//! Parsing counter-source text into a snapshot.
//!
//! The input has the shape of `/proc/net/dev`: two header lines, then one
//! line per interface of the form `name: f0 f1 ... f8 ...`, where field 0 is
//! the received byte counter and field 8 the transmitted byte counter.  A
//! malformed line makes the whole call fail; no partial snapshot escapes.

use vstd::prelude::*;
use indexmap::IndexMap;
use crate::numbers::{parse_u64_chars, spec_parse_u64};
use crate::snapshot::{
    index_map_entries, lemma_insert_preserves_unique, snapshot_insert, snapshot_new, spec_insert,
    unique_names,
};
use crate::text::{
    chars_of, copy_range, find_char, find_char_at, push_u64_digits, spec_lines, spec_trim,
    split_lines, split_ws, split_ws_fields, string_from_chars, trim_chars,
};

verus! {

/// Why counter-source text could not be parsed.
#[derive(Debug, Clone, Copy, PartialEq, Eq, Structural)]
pub enum ParseError {
    /// A data line has no colon separating the interface name.
    NoColon,
    /// A data line has fewer than nine counter fields; holds the count found.
    BadFieldCount(usize),
    /// The received-bytes field is not a valid 64-bit number.
    InvalidRx,
    /// The transmitted-bytes field is not a valid 64-bit number.
    InvalidTx,
}

impl ParseError {
    /// A diagnostic message for this error.
    pub fn message(&self) -> (r: String)
        ensures
            r@ == match *self {
                ParseError::NoColon => "Invalid line format (no colon found)"@,
                ParseError::BadFieldCount(n) => "Invalid line format: "@ + crate::text::dec_digits(
                    n as nat,
                ) + " fields"@,
                ParseError::InvalidRx => "Invalid RX bytes"@,
                ParseError::InvalidTx => "Invalid TX bytes"@,
            },
    {
        match *self {
            ParseError::NoColon => String::from_str("Invalid line format (no colon found)"),
            ParseError::BadFieldCount(n) => {
                let mut digits: Vec<char> = Vec::new();
                push_u64_digits(&mut digits, n as u64);
                let mut m = String::from_str("Invalid line format: ");
                m.append(string_from_chars(&digits).as_str());
                m.append(" fields");
                m
            },
            ParseError::InvalidRx => String::from_str("Invalid RX bytes"),
            ParseError::InvalidTx => String::from_str("Invalid TX bytes"),
        }
    }
}

/// What one data line denotes: an interface entry, or the first error found.
pub open spec fn spec_parse_line(line: Seq<char>) -> Result<(Seq<char>, (u64, u64)), ParseError> {
    match find_char(line, ':') {
        None => Err(ParseError::NoColon),
        Some(ci) => {
            let name = spec_trim(line.take(ci as int));
            let fields = split_ws(line.skip(ci as int + 1));
            if fields.len() < 9 {
                Err(ParseError::BadFieldCount(fields.len() as usize))
            } else {
                match spec_parse_u64(fields[0]) {
                    None => Err(ParseError::InvalidRx),
                    Some(rx) => match spec_parse_u64(fields[8]) {
                        None => Err(ParseError::InvalidTx),
                        Some(tx) => Ok((name, (rx, tx))),
                    },
                }
            }
        },
    }
}

/// The snapshot denoted by the first `n` lines: the two header lines are
/// skipped, the rest are folded in order, and the first error wins.
pub open spec fn spec_parse_upto(lines: Seq<Seq<char>>, n: int) -> Result<
    Seq<(Seq<char>, (u64, u64))>,
    ParseError,
>
    decreases n,
{
    if n <= 2 {
        Ok(Seq::empty())
    } else {
        match spec_parse_upto(lines, n - 1) {
            Err(e) => Err(e),
            Ok(es) => match spec_parse_line(lines[n - 1]) {
                Err(e) => Err(e),
                Ok(entry) => Ok(spec_insert(es, entry.0, entry.1)),
            },
        }
    }
}

/// The snapshot denoted by the whole input text.
pub open spec fn spec_parse(input: Seq<char>) -> Result<
    Seq<(Seq<char>, (u64, u64))>,
    ParseError,
> {
    spec_parse_upto(spec_lines(input), spec_lines(input).len() as int)
}

/// An error found at line `k` is the error of every longer prefix.
proof fn lemma_parse_upto_err(lines: Seq<Seq<char>>, k: int, m: int)
    requires
        k <= m,
        spec_parse_upto(lines, k) is Err,
    ensures
        spec_parse_upto(lines, m) == spec_parse_upto(lines, k),
    decreases m - k,
{
    if k < m {
        lemma_parse_upto_err(lines, k, m - 1);
    }
}

/// Parses one data line.
fn parse_line(line: &Vec<char>) -> (r: Result<(String, (u64, u64)), ParseError>)
    ensures
        match r {
            Ok(e) => spec_parse_line(line@) == Ok::<_, ParseError>((e.0@, e.1)),
            Err(er) => spec_parse_line(line@) == Err::<(Seq<char>, (u64, u64)), _>(er),
        },
{
    match find_char_at(line, ':') {
        None => Err(ParseError::NoColon),
        Some(ci) => {
            proof {
                crate::text::lemma_find_char(line@, ':');
            }
            let name_part = copy_range(line, 0, ci);
            proof {
                assert(name_part@ == line@.take(ci as int));
            }
            let name = trim_chars(&name_part);
            let line_len = line.len();
            let rest = copy_range(line, ci + 1, line_len);
            proof {
                assert(rest@ =~= line@.skip(ci as int + 1));
            }
            let fields = split_ws_fields(&rest);
            if fields.len() < 9 {
                return Err(ParseError::BadFieldCount(fields.len()));
            }
            proof {
                assert(fields.deep_view()[0] == fields@[0]@);
                assert(fields.deep_view()[8] == fields@[8]@);
            }
            match parse_u64_chars(&fields[0]) {
                None => Err(ParseError::InvalidRx),
                Some(rx) => match parse_u64_chars(&fields[8]) {
                    None => Err(ParseError::InvalidTx),
                    Some(tx) => Ok((string_from_chars(&name), (rx, tx))),
                },
            }
        },
    }
}

/// Parses counter-source text into an ordered snapshot.
///
/// The first two lines are headers and are skipped.  Every further line must
/// hold an interface name, a colon, and at least nine counter fields, of
/// which the first is bytes received and the ninth bytes transmitted; the
/// first malformed line fails the whole call and no partial snapshot is
/// returned.  A repeated interface name keeps its first position with the
/// later counters.
pub fn parse_net_dev_stats(input: &str) -> (r: Result<IndexMap<String, (u64, u64)>, ParseError>)
    ensures
        match r {
            Ok(m) => spec_parse(input@) == Ok::<_, ParseError>(index_map_entries(m))
                && unique_names(index_map_entries(m)),
            Err(e) => spec_parse(input@) == Err::<Seq<(Seq<char>, (u64, u64))>, _>(e),
        },
{
    let cs = chars_of(input);
    let lines = split_lines(&cs);
    let mut stats = snapshot_new();
    let n = lines.len();
    if n <= 2 {
        return Ok(stats);
    }
    let mut i: usize = 2;
    while i < n
        invariant
            2 <= i <= n,
            n == lines@.len(),
            lines.deep_view() == spec_lines(input@),
            spec_parse_upto(lines.deep_view(), i as int) == Ok::<_, ParseError>(
                index_map_entries(stats),
            ),
            unique_names(index_map_entries(stats)),
        decreases n - i,
    {
        let line = &lines[i];
        proof {
            assert(lines.deep_view()[i as int] == lines@[i as int]@);
        }
        match parse_line(line) {
            Err(e) => {
                proof {
                    lemma_parse_upto_err(lines.deep_view(), i as int + 1, n as int);
                }
                return Err(e);
            },
            Ok(entry) => {
                proof {
                    lemma_insert_preserves_unique(
                        index_map_entries(stats),
                        entry.0@,
                        entry.1,
                    );
                }
                let (name, counters) = entry;
                snapshot_insert(&mut stats, name, counters);
            },
        }
        i += 1;
    }
    Ok(stats)
}

} // verus!
