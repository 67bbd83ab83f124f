//! How spans of time are written.

use vstd::prelude::*;
use vstd::string::*;

use crate::duration::Duration;
use crate::text::{decimal, decimal_text};

verus! {

/// A span of time in the largest unit that divides it.
pub open spec fn duration_text(duration: Duration) -> Seq<char> {
    let nanos = duration.nanos;
    if nanos % 1_000_000_000 == 0 {
        decimal((nanos / 1_000_000_000) as nat) + "s"@
    } else if nanos % 1_000_000 == 0 {
        decimal((nanos / 1_000_000) as nat) + "ms"@
    } else if nanos % 1_000 == 0 {
        decimal((nanos / 1_000) as nat) + "us"@
    } else {
        decimal(nanos as nat) + "ns"@
    }
}

fn with_unit(count: u128, unit: &str) -> (text: String)
    ensures
        text@ == decimal(count as nat) + unit@,
{
    let mut text: String = decimal_text(count);
    text.append(unit);
    text
}

/// Writes a span of time in the largest unit that divides it.
pub fn format_duration(duration: Duration) -> (text: String)
    ensures
        text@ == duration_text(duration),
{
    let nanos: u128 = duration.nanos;
    if nanos % 1_000_000_000 == 0 {
        with_unit(nanos / 1_000_000_000, "s")
    } else if nanos % 1_000_000 == 0 {
        with_unit(nanos / 1_000_000, "ms")
    } else if nanos % 1_000 == 0 {
        with_unit(nanos / 1_000, "us")
    } else {
        with_unit(nanos, "ns")
    }
}

} // verus!
