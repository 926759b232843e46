//! Time-based classification of active workers.

use vstd::prelude::*;

use super::worker::{status_active, Worker};
use crate::clock::{
    chrono_duration_between, delta_well_formed, duration_since, seconds_delta, TimeDelta, Timestamp,
};
use crate::error::Error;
use crate::text::{
    chars_of, debug_str, decimal, digits_num, is_digit, only_digits, parse_digits_upto,
    slice_vec, spec_debug_str, trim, trim_vec, u64_decimal,
};

verus! {

pub const DEFAULT_STALE_AFTER_HOURS: i64 = 24;

/// 24 hours.
pub fn default_stale_after() -> (r: TimeDelta)
    ensures
        r == (TimeDelta { secs: 86400, nanos: 0 }),
{
    TimeDelta { secs: 86400, nanos: 0 }
}

/// Whether `a` is longer than `b`.
pub open spec fn longer(a: TimeDelta, b: TimeDelta) -> bool {
    a.secs > b.secs || (a.secs == b.secs && a.nanos > b.nanos)
}

/// Time from `then` to `now`, as chrono computes it.
pub open spec fn elapsed(now: Timestamp, then: Timestamp) -> TimeDelta {
    let d = chrono_duration_between(now.secs, now.nanos, then.secs, then.nanos);
    if d.1 < 0 {
        TimeDelta { secs: (d.0 - 1) as i64, nanos: (d.1 + 1_000_000_000) as u32 }
    } else {
        TimeDelta { secs: d.0, nanos: d.1 as u32 }
    }
}

/// A worker is stale only after the threshold has elapsed, not at the threshold.
pub fn is_stale(worker: &Worker, now: Timestamp, stale_after: TimeDelta) -> (r: bool)
    ensures
        r == (status_active(worker.status) && longer(elapsed(now, worker.last_updated), stale_after)),
{
    if !worker.status.is_active() {
        return false;
    }
    let age = duration_since(now, worker.last_updated);
    proof {
        let d = chrono_duration_between(now.secs, now.nanos, worker.last_updated.secs, worker.last_updated.nanos);
        let e = elapsed(now, worker.last_updated);
        assert(age.secs * 1_000_000_000 + age.nanos == d.0 * 1_000_000_000 + d.1);
        if d.1 < 0 {
            assert(age.secs == e.secs && age.nanos == e.nanos) by (nonlinear_arith)
                requires
                    age.secs * 1_000_000_000 + age.nanos == d.0 * 1_000_000_000 + d.1,
                    0 <= age.nanos < 1_000_000_000,
                    -1_000_000_000 < d.1 < 0,
                    e.secs == d.0 - 1,
                    e.nanos == d.1 + 1_000_000_000,
            ;
        } else {
            assert(age.secs == e.secs && age.nanos == e.nanos) by (nonlinear_arith)
                requires
                    age.secs * 1_000_000_000 + age.nanos == d.0 * 1_000_000_000 + d.1,
                    0 <= age.nanos < 1_000_000_000,
                    0 <= d.1 < 1_000_000_000,
                    e.secs == d.0,
                    e.nanos == d.1,
            ;
        }
    }
    age.longer_than(&stale_after)
}

/// A positive whole number followed by `m`, `h`, `d` or `w`, surrounding
/// whitespace ignored.
pub open spec fn duration_of(s: Seq<char>) -> Option<TimeDelta> {
    let v = trim(s);
    if v.len() == 0 {
        None
    } else {
        let n = v.drop_last();
        let u = v.last();
        if n.len() == 0 || !only_digits(n) || digits_num(n) > i64::MAX || digits_num(n) == 0 {
            None
        } else {
            let a = digits_num(n);
            if u == 'm' {
                seconds_delta(a * 60)
            } else if u == 'h' {
                seconds_delta(a * 3600)
            } else if u == 'd' {
                seconds_delta(a * 86400)
            } else if u == 'w' {
                seconds_delta(a * 604800)
            } else {
                None
            }
        }
    }
}

fn invalid_duration(s: &str) -> (e: Error)
    ensures
        e matches Error::InvalidConfig(m) && m@ == "invalid duration: "@ + spec_debug_str(s@),
{
    let mut m = String::new();
    m.append("invalid duration: ");
    let d = debug_str(s);
    m.append(d.as_str());
    Error::InvalidConfig(m)
}

fn digits_ok(v: &[char]) -> (b: bool)
    ensures
        b == only_digits(v@),
{
    let mut i: usize = 0;
    while i < v.len()
        invariant
            i <= v.len(),
            forall|j: int| 0 <= j < i ==> is_digit(#[trigger] v@[j]),
        decreases v.len() - i,
    {
        if !crate::text::char_is_digit(v[i]) {
            return false;
        }
        i = i + 1;
    }
    true
}

/// Parse a positive integer followed by `m`, `h`, `d`, or `w`.
pub fn parse_duration(s: &str) -> (r: Result<TimeDelta, Error>)
    ensures
        match r {
            Ok(d) => duration_of(s@) == Some(d),
            Err(e) => duration_of(s@) is None && (e matches Error::InvalidConfig(m) && m@
                == "invalid duration: "@ + spec_debug_str(s@)),
        },
{
    let v = trim_vec(&chars_of(s));
    if v.len() == 0 {
        return Err(invalid_duration(s));
    }
    let n = slice_vec(&v, 0, v.len() - 1);
    let u = v[v.len() - 1];
    assert(n@ =~= v@.drop_last());
    if n.len() == 0 || !digits_ok(&n) {
        return Err(invalid_duration(s));
    }
    let amount = match parse_digits_upto(&n, 0x7FFF_FFFF_FFFF_FFFF) {
        Some(a) => a as i64,
        None => {
            return Err(invalid_duration(s));
        },
    };
    if amount <= 0 {
        return Err(invalid_duration(s));
    }
    let d = if u == 'm' {
        TimeDelta::try_minutes(amount)
    } else if u == 'h' {
        TimeDelta::try_hours(amount)
    } else if u == 'd' {
        TimeDelta::try_days(amount)
    } else if u == 'w' {
        TimeDelta::try_weeks(amount)
    } else {
        None
    };
    match d {
        Some(d) => Ok(d),
        None => Err(invalid_duration(s)),
    }
}

/// `just now`, or whole minutes, hours or days, rounded down.
pub open spec fn age_text(age: TimeDelta) -> Seq<char> {
    let s = if age.secs < 0 && age.nanos > 0 {
        age.secs + 1
    } else {
        age.secs as int
    };
    if s < 60 {
        "just now"@
    } else if s < 3600 {
        decimal((s / 60) as nat) + seq!['m']
    } else if s < 86400 {
        decimal((s / 3600) as nat) + seq!['h']
    } else {
        decimal((s / 86400) as nat) + seq!['d']
    }
}

/// Format elapsed time to the largest useful whole unit.
pub fn format_age(age: TimeDelta) -> (r: String)
    requires
        delta_well_formed(age),
    ensures
        r@ == age_text(age),
{
    let seconds = age.num_seconds();
    if seconds < 60 {
        String::from_str("just now")
    } else {
        let (n, unit) = if seconds < 3600 {
            (seconds / 60, "m")
        } else if seconds < 86400 {
            (seconds / 3600, "h")
        } else {
            (seconds / 86400, "d")
        };
        let mut out = u64_decimal(n as u64);
        out.append(unit);
        proof {
            reveal_strlit("m");
            reveal_strlit("h");
            reveal_strlit("d");
        }
        out
    }
}

} // verus!
