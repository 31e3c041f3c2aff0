//! Debug lines: when they are on, and how they look.

use vstd::prelude::*;
use vstd::string::*;

use crate::text::{decimal, decimal_of, joined, same_str};

verus! {

/// Whether the value of the switch turns debug lines on: anything but nothing
/// and `0`.
pub fn switches_on(value: Option<&str>) -> (r: bool)
    ensures
        r == (match value {
            Some(v) => v@.len() > 0 && v@ != "0"@,
            None => false,
        }),
{
    match value {
        Some(v) => !v.is_empty() && !same_str(v, "0"),
        None => false,
    }
}

/// A debug line, with the milliseconds since the first one.
pub fn debug_line(elapsed_ms: u64, line: &str) -> (r: String)
    ensures
        r@ == "[aetherlink-debug +"@ + decimal(elapsed_ms as nat) + "ms] "@ + line@,
{
    let mut r = joined("[aetherlink-debug +", decimal_of(elapsed_ms).as_str());
    r.append("ms] ");
    r.append(line);
    r
}

} // verus!
