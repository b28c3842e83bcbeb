//! Wall-clock stamps and the container file naming scheme: a new file is
//! named for its first packet's UTC time, `yyMMdd_HHmmss_fffffff.pcap`,
//! with the fraction counted in 100-nanosecond units.

use vstd::prelude::*;

use crate::packet::{MAX_TIMESTAMP_NS, NANOS_PER_SECOND};
use vstd::string::StringExecFns;

verus! {

/// What chrono's strftime formatting with `"%y%m%d_%H%M%S"` produces for a
/// UTC time given as whole seconds since the Unix epoch; it is a function
/// of the seconds alone.
pub uninterp spec fn utc_stamp_of(secs: u64) -> Seq<char>;

/// Relies on chrono's `DateTime::from_timestamp` and its strftime
/// formatting: `"%y%m%d_%H%M%S"` prints six zero-padded two-digit fields
/// and one underscore, thirteen characters in all.  The precondition keeps
/// the seconds well inside chrono's representable range, so the conversion
/// cannot fail.
#[verifier::external_body]
fn utc_stamp(secs: u64) -> (r: String)
    requires
        secs <= 18_446_744_073,
    ensures
        r@ == utc_stamp_of(secs),
        r@.len() == 13,
{
    match chrono::DateTime::from_timestamp(secs as i64, 0) {
        Some(dt) => dt.format("%y%m%d_%H%M%S").to_string(),
        None => String::new(),
    }
}

/// Relies on chrono's `Utc::now` and `to_rfc3339`.  The result depends on
/// the wall clock, so nothing is stated of it.
#[verifier::external_body]
pub(crate) fn now_rfc3339() -> String {
    chrono::Utc::now().to_rfc3339()
}

/// The decimal digit character for `d` in 0..10.
pub open spec fn digit_char(d: int) -> char {
    if d == 0 {
        '0'
    } else if d == 1 {
        '1'
    } else if d == 2 {
        '2'
    } else if d == 3 {
        '3'
    } else if d == 4 {
        '4'
    } else if d == 5 {
        '5'
    } else if d == 6 {
        '6'
    } else if d == 7 {
        '7'
    } else if d == 8 {
        '8'
    } else {
        '9'
    }
}

/// `n` printed as exactly seven zero-padded decimal digits.
pub open spec fn padded7(n: int) -> Seq<char> {
    seq![
        digit_char(n / 1_000_000 % 10),
        digit_char(n / 100_000 % 10),
        digit_char(n / 10_000 % 10),
        digit_char(n / 1_000 % 10),
        digit_char(n / 100 % 10),
        digit_char(n / 10 % 10),
        digit_char(n % 10),
    ]
}

/// The name a container file receives from its first packet's timestamp:
/// the UTC stamp, an underscore, the 100-nanosecond fraction as seven
/// digits, and the `.pcap` extension.
pub open spec fn container_name_of(ts: u64) -> Seq<char> {
    utc_stamp_of((ts / NANOS_PER_SECOND) as u64) + "_"@ + padded7(
        (ts as int % (NANOS_PER_SECOND as int)) / 100,
    ) + ".pcap"@
}

/// The one-character string for a decimal digit.
fn digit_str(d: u64) -> (r: &'static str)
    requires
        d < 10,
    ensures
        r@ == seq![digit_char(d as int)],
{
    proof {
        reveal_strlit("0");
        reveal_strlit("1");
        reveal_strlit("2");
        reveal_strlit("3");
        reveal_strlit("4");
        reveal_strlit("5");
        reveal_strlit("6");
        reveal_strlit("7");
        reveal_strlit("8");
        reveal_strlit("9");
    }
    let r = if d == 0 {
        "0"
    } else if d == 1 {
        "1"
    } else if d == 2 {
        "2"
    } else if d == 3 {
        "3"
    } else if d == 4 {
        "4"
    } else if d == 5 {
        "5"
    } else if d == 6 {
        "6"
    } else if d == 7 {
        "7"
    } else if d == 8 {
        "8"
    } else {
        "9"
    };
    proof {
        assert(r@ =~= seq![digit_char(d as int)]);
    }
    r
}

/// Names a container file for its first packet's timestamp.
pub fn container_file_name(ts: u64) -> (r: String)
    requires
        ts <= MAX_TIMESTAMP_NS,
    ensures
        r@ == container_name_of(ts),
{
    let secs = ts / 1_000_000_000;
    let mut out = utc_stamp(secs);
    out.append("_");
    let frac = ts % 1_000_000_000 / 100;
    out.append(digit_str(frac / 1_000_000 % 10));
    out.append(digit_str(frac / 100_000 % 10));
    out.append(digit_str(frac / 10_000 % 10));
    out.append(digit_str(frac / 1_000 % 10));
    out.append(digit_str(frac / 100 % 10));
    out.append(digit_str(frac / 10 % 10));
    out.append(digit_str(frac % 10));
    out.append(".pcap");
    proof {
        assert(out@ =~= container_name_of(ts));
    }
    out
}

} // verus!
