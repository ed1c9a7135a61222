//! Validation of numeric command-line values that must be whole numbers.

use vstd::prelude::*;
use crate::numbers::{parse_u64_chars, spec_parse_u64};
use crate::text::chars_of;

verus! {

/// Validates a count argument: it must parse as an unsigned 64-bit number
/// and be strictly positive; otherwise a descriptive message quotes it.
pub fn parse_positive_u64(src: &str) -> (r: Result<u64, String>)
    ensures
        match r {
            Ok(v) => spec_parse_u64(src@) == Some(v) && v > 0,
            Err(m) => match spec_parse_u64(src@) {
                None => m@ == "`"@ + src@ + "` is not a valid number > 0"@,
                Some(v) => v == 0 && m@ == "`"@ + src@ + "` must be greater than 0"@,
            },
        },
{
    let cs = chars_of(src);
    match parse_u64_chars(&cs) {
        None => {
            let mut m = String::from_str("`");
            m.append(src);
            m.append("` is not a valid number > 0");
            Err(m)
        },
        Some(v) => {
            if v == 0 {
                let mut m = String::from_str("`");
                m.append(src);
                m.append("` must be greater than 0");
                Err(m)
            } else {
                Ok(v)
            }
        },
    }
}

} // verus!
