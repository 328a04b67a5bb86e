//! Relative-time rendering: how long ago a timestamp lies, in the coarsest
//! unit that fits.

use crate::decimal::{dec_digits, u64_to_string};
use vstd::prelude::*;

verus! {

/// The rendering of the age `now - then`, both in seconds: `just now`
/// under a minute or for future timestamps, then whole minutes, hours,
/// days, months of thirty days, and years of three hundred and sixty-five
/// days.
pub open spec fn spec_relative_time(then: i64, now: i64) -> Seq<char> {
    let seconds = now - then;
    if seconds < 60 {
        "just now"@
    } else if seconds / 60 < 60 {
        dec_digits((seconds / 60) as nat) + "m ago"@
    } else if seconds / 3600 < 24 {
        dec_digits((seconds / 3600) as nat) + "h ago"@
    } else if seconds / 86400 < 30 {
        dec_digits((seconds / 86400) as nat) + "d ago"@
    } else if seconds / 86400 < 365 {
        dec_digits((seconds / 86400 / 30) as nat) + "mo ago"@
    } else {
        dec_digits((seconds / 86400 / 365) as nat) + "y ago"@
    }
}

/// Renders how long before `now` the timestamp `then` lies.
pub fn relative_time_at(then: i64, now: i64) -> (r: String)
    ensures
        r@ == spec_relative_time(then, now),
{
    let seconds: i128 = now as i128 - then as i128;
    if seconds < 60 {
        let mut s = String::new();
        s.append("just now");
        proof {
            assert(now - then < 60);
        }
        return s;
    }
    proof {
        assert(seconds == now - then);
        assert(seconds >= 60);
    }
    let minutes = seconds / 60;
    if minutes < 60 {
        let mut s = u64_to_string(minutes as u64);
        s.append("m ago");
        return s;
    }
    let hours = seconds / 3600;
    if hours < 24 {
        let mut s = u64_to_string(hours as u64);
        s.append("h ago");
        return s;
    }
    let days = seconds / 86400;
    if days < 30 {
        let mut s = u64_to_string(days as u64);
        s.append("d ago");
        return s;
    }
    if days < 365 {
        let mut s = u64_to_string((days / 30) as u64);
        s.append("mo ago");
        return s;
    }
    proof {
        assert(days >= 365);
        assert(days <= seconds / 86400);
        assert(days / 365 >= 1);
        assert(days / 365 <= u64::MAX as i128) by {
            assert(seconds <= i64::MAX as i128 - i64::MIN as i128);
        }
    }
    let mut s = u64_to_string((days / 365) as u64);
    s.append("y ago");
    s
}

/// Renders how long ago the timestamp lies, against the wall clock.
pub fn relative_time(then: i64) -> (r: String)
    ensures
        exists|now: i64| r@ == #[trigger] spec_relative_time(then, now),
{
    let now = crate::clock::now_epoch_seconds();
    relative_time_at(then, now)
}

} // verus!
