//! Human-readable video durations.

use vstd::prelude::*;
use crate::text::{decimal, digit_char, push_decimal, push_digit};

verus! {

/// `seconds` as shown after a title: `"<s>s"` below one minute, else
/// `"<m>:<ss>s"` with the seconds in two digits.
pub open spec fn duration_text(seconds: nat) -> Seq<char> {
    let m = seconds / 60;
    let s = seconds % 60;
    if m == 0 {
        decimal(s) + seq!['s']
    } else {
        decimal(m) + seq![':', digit_char(s / 10), digit_char(s % 10), 's']
    }
}

/// Formats a duration given in seconds.
pub fn format_duration(seconds: u64) -> (r: String)
    ensures
        r@ == duration_text(seconds as nat),
{
    let minutes = seconds / 60;
    let secs = seconds % 60;
    let mut r = String::new();
    proof {
        reveal_strlit("s");
        reveal_strlit(":");
    }
    if minutes == 0 {
        push_decimal(&mut r, secs);
        r.append("s");
    } else {
        push_decimal(&mut r, minutes);
        r.append(":");
        push_digit(&mut r, secs / 10);
        push_digit(&mut r, secs % 10);
        r.append("s");
    }
    r
}

} // verus!
