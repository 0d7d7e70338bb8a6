//! Storing the readings that sensors post: the time a flowmeter reading is
//! dated with, and the text each endpoint answers once the database has
//! taken, or refused, the reading.

use vstd::prelude::*;
use vstd::string::StringExecFns;
use crate::time::{secs_in_utc_range, Timestamp};

verus! {

/// Seconds by which the stored end of a flowmeter reading precedes the time
/// the reading arrives.
pub const TIMEOUT: i64 = 5000;

/// `a / d` rounded toward zero, as integer division does.
pub open spec fn div_toward_zero(a: int, d: int) -> int {
    if a >= 0 {
        a / d
    } else {
        -((-a) / d)
    }
}

/// Whether `x` fits in an `i64`.
pub open spec fn fits_i64(x: int) -> bool {
    i64::MIN <= x <= i64::MAX
}

/// The span, in seconds after the epoch, that a flowmeter reading is stored
/// with: it ends [`TIMEOUT`] seconds before `now`, and lasts the reading's
/// duration in whole seconds (its milliseconds divided by 1000, toward zero).
/// Nothing when a step leaves the range of `i64` or an end lies outside the
/// range of UTC date-times.
pub open spec fn spec_flowmeter_window(now: i64, start_ms: i64, stop_ms: i64) -> Option<(int, int)> {
    let stop = now - TIMEOUT;
    let duration_ms = stop_ms - start_ms;
    let start = stop - div_toward_zero(duration_ms, 1000);
    if fits_i64(stop) && fits_i64(duration_ms) && fits_i64(start) && secs_in_utc_range(start)
        && secs_in_utc_range(stop) {
        Some((start, stop))
    } else {
        None
    }
}

/// The stored span of a flowmeter reading that arrives at `now` and was
/// measured from `start_ms` to `stop_ms`, computed step by step: it ends 5000
/// seconds before `now` and starts the reading's milliseconds, divided by 1000
/// and rounded toward zero, before that; there is a span exactly when every
/// step fits in an `i64` and both ends are UTC date-times.
pub open spec fn dated_span(now: i64, start_ms: i64, stop_ms: i64, res: Option<(Timestamp, Timestamp)>) -> bool {
    let stop = now - 5000;
    let d = stop_ms - start_ms;
    let whole_seconds = if d >= 0 {
        d / 1000
    } else {
        -((-d) / 1000)
    };
    let start = stop - whole_seconds;
    &&& res is Some <==> (i64::MIN <= stop <= i64::MAX && i64::MIN <= d <= i64::MAX && i64::MIN <= start
        <= i64::MAX && secs_in_utc_range(start) && secs_in_utc_range(stop))
    &&& res matches Some((s, e)) ==> s == Timestamp { secs: start as i64, nanos: 0 } && e == Timestamp {
        secs: stop as i64,
        nanos: 0,
    }
}

/// The span that [`spec_flowmeter_window`] gives is the one [`dated_span`]
/// computes step by step.
pub proof fn lemma_flowmeter_window_dates(now: i64, start_ms: i64, stop_ms: i64)
    ensures
        dated_span(
            now,
            start_ms,
            stop_ms,
            match spec_flowmeter_window(now, start_ms, stop_ms) {
                Some((s, e)) => Some(
                    (Timestamp { secs: s as i64, nanos: 0 }, Timestamp { secs: e as i64, nanos: 0 }),
                ),
                None => None,
            },
        ),
{
}

/// The stored span of a flowmeter reading that arrives at `now` (seconds
/// after the epoch) and was measured from `start_ms` to `stop_ms` on the
/// device's millisecond clock; `None` exactly where [`spec_flowmeter_window`]
/// gives nothing, the inputs on which the reading cannot be stored.
pub fn flowmeter_window(now: i64, start_ms: i64, stop_ms: i64) -> (res: Option<(Timestamp, Timestamp)>)
    ensures
        match spec_flowmeter_window(now, start_ms, stop_ms) {
            Some((start, stop)) => res matches Some((s, e)) && s.secs == start && s.nanos == 0 && e.secs
                == stop && e.nanos == 0 && s.wf() && e.wf(),
            None => res is None,
        },
        dated_span(now, start_ms, stop_ms, res),
{
    let stop = match now.checked_sub(TIMEOUT) {
        Some(v) => v,
        None => return None,
    };
    let duration_ms = match stop_ms.checked_sub(start_ms) {
        Some(v) => v,
        None => return None,
    };
    let duration = match duration_ms.checked_div(1000) {
        Some(v) => v,
        None => return None,
    };
    assert(duration == div_toward_zero(duration_ms as int, 1000));
    let start = match stop.checked_sub(duration) {
        Some(v) => v,
        None => return None,
    };
    let start_ts = match Timestamp::from_unix(start, 0) {
        Some(t) => t,
        None => return None,
    };
    let stop_ts = match Timestamp::from_unix(stop, 0) {
        Some(t) => t,
        None => return None,
    };
    Some((start_ts, stop_ts))
}

/// What the sensor endpoints answer after storing a reading.
pub open spec fn spec_insert_reply(stored: bool) -> Seq<char> {
    if stored {
        "Success 200"@
    } else {
        "Error 500"@
    }
}

/// The answer to a sensor that posted a reading: success when the database
/// stored it, a server error otherwise.
pub fn insert_reply(stored: bool) -> (reply: String)
    ensures
        reply@ == spec_insert_reply(stored),
        stored ==> reply@ == "Success 200"@,
        !stored ==> reply@ == "Error 500"@,
{
    if stored {
        String::from_str("Success 200")
    } else {
        String::from_str("Error 500")
    }
}

/// The decimal digit that stands for `d`, below ten.
pub open spec fn digit_char(d: int) -> char {
    ('0' as int + d) as char
}

/// The decimal digits of `n`, with no leading zero.
pub open spec fn decimal_digits(n: nat) -> Seq<char>
    decreases n,
{
    if n < 10 {
        seq![digit_char(n as int)]
    } else {
        decimal_digits(n / 10).push(digit_char((n % 10) as int))
    }
}

/// `n` written in decimal, with a `-` before a negative number.
pub open spec fn decimal_i64(n: i64) -> Seq<char> {
    if n < 0 {
        seq!['-'] + decimal_digits((-n) as nat)
    } else {
        decimal_digits(n as nat)
    }
}

/// Writes `n` in decimal.
///
/// Calls `ToString::to_string` on the `i64`, whose `Display` writes the
/// number in decimal, with a leading `-` when negative and no leading zeros.
#[verifier::external_body]
fn i64_to_decimal(n: i64) -> (s: String)
    ensures
        s@ == decimal_i64(n),
{
    n.to_string()
}

/// The answer of the older moisture endpoint: the time in seconds after the
/// epoch, in decimal, when the database stored the reading; a server error
/// otherwise.
pub fn timestamp_reply(stored: bool, now: i64) -> (reply: String)
    ensures
        stored ==> reply@ == decimal_i64(now),
        !stored ==> reply@ == "Error 500"@,
{
    if stored {
        i64_to_decimal(now)
    } else {
        String::from_str("Error 500")
    }
}

/// The decimal digits of `n` are ASCII digits that write `n`, with no
/// leading zero unless `n` is zero.
pub proof fn lemma_decimal_digits_write_the_number(n: nat)
    ensures
        decimal_digits(n).len() >= 1,
        forall|i: int|
            0 <= i < decimal_digits(n).len() ==> crate::blockchain::is_decimal_digit(#[trigger] decimal_digits(n)[i]),
        crate::blockchain::decimal_value(decimal_digits(n)) == n,
        decimal_digits(n).len() > 1 ==> decimal_digits(n)[0] != '0',
    decreases n,
{
    if n < 10 {
        assert((digit_char(n as int) as int) == '0' as int + n);
        let d = decimal_digits(n);
        assert(d.drop_last() =~= Seq::<char>::empty());
        assert(crate::blockchain::decimal_value(d) == crate::blockchain::decimal_value(d.drop_last()) * 10 + (
        d.last() as int - '0' as int));
    } else {
        lemma_decimal_digits_write_the_number(n / 10);
        let d = decimal_digits(n);
        let h = decimal_digits(n / 10);
        assert(d.drop_last() =~= h);
        assert(d[0] == h[0]);
        assert(n == (n / 10) * 10 + n % 10) by {
            vstd::arithmetic::div_mod::lemma_fundamental_div_mod(n as int, 10);
        }
        assert(d.last() == digit_char((n % 10) as int));
        assert((digit_char((n % 10) as int) as int) == '0' as int + n % 10);
        if n / 10 < 10 {
            assert(h[0] == digit_char((n / 10) as int));
            assert((digit_char((n / 10) as int) as int) == '0' as int + n / 10);
        } else {
            lemma_decimal_digits_write_the_number(n / 10 / 10);
            assert(h.len() > 1);
        }
        assert(crate::blockchain::decimal_value(d) == crate::blockchain::decimal_value(d.drop_last()) * 10 + (
        d.last() as int - '0' as int));
        assert forall|i: int| 0 <= i < d.len() implies crate::blockchain::is_decimal_digit(#[trigger] d[i]) by {
            if i < h.len() {
                assert(d[i] == h[i]);
            }
        }
    }
}

} // verus!
