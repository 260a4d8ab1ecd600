//! The ISO 8601 text of a stored interval, in the form it was written in:
//! `start/end`, `start/duration` or `duration/end`.
use vstd::prelude::*;
use crate::calendar::{civil_from_timestamp, spec_civil_from_timestamp, spec_date_text, CivilDateTime};
use crate::duration::{duration_string, spec_signed_duration_text, Duration};
use crate::interval::{
    DateTimeInterval, INTERVAL_COMPONENT_DATE, INTERVAL_FLAG_DURATION_END,
    INTERVAL_FLAG_START_DURATION,
};
use crate::text::{push_str, push_zero_padded, spec_zero_padded};
use crate::time::{chrono_time_to_string, spec_datetime_text, spec_time_text, TimeOfDay};

verus! {

/// `YYYY-MM-DD` for a date endpoint; `YYYY-MM-DDTHH:MM:SS[.fff]Z` for a
/// date-time endpoint.
pub open spec fn spec_endpoint_text(c: CivilDateTime, component: u8) -> Seq<char> {
    if component == INTERVAL_COMPONENT_DATE {
        spec_date_text(c.year as int, c.month as int, c.day as int)
    } else {
        spec_datetime_text(c) + seq!['Z']
    }
}

/// The text of an interval whose endpoints are the date-times `start` and
/// `end`, in the form its flag records; `second_text` is the text of the
/// duration's seconds.
pub open spec fn spec_interval_text(
    iv: DateTimeInterval,
    start: CivilDateTime,
    end: CivilDateTime,
    second_text: Seq<char>,
) -> Seq<char> {
    let s = spec_endpoint_text(start, iv.start_type);
    let e = spec_endpoint_text(end, iv.end_type);
    let d = spec_signed_duration_text(iv.duration, second_text);
    if iv.flag == INTERVAL_FLAG_START_DURATION {
        s + seq!['/'] + d
    } else if iv.flag == INTERVAL_FLAG_DURATION_END {
        d + seq!['/'] + e
    } else {
        s + seq!['/'] + e
    }
}

fn push_endpoint_text(out: &mut String, c: &CivilDateTime, component: u8)
    requires
        c.valid(),
    ensures
        final(out)@ == old(out)@ + spec_endpoint_text(*c, component),
{
    proof {
        reveal_strlit("-");
        reveal_strlit("T");
        reveal_strlit("Z");
    }
    push_zero_padded(out, c.year as i64, 4);
    push_str(out, "-");
    push_zero_padded(out, c.month as i64, 2);
    push_str(out, "-");
    push_zero_padded(out, c.day as i64, 2);
    if component != INTERVAL_COMPONENT_DATE {
        push_str(out, "T");
        let t = TimeOfDay { hour: c.hour, minute: c.minute, second: c.second, nano: c.nano };
        let text = chrono_time_to_string(t);
        push_str(out, text.as_str());
        push_str(out, "Z");
    }
}

fn push_duration_text(out: &mut String, d: &Duration, second_text: &str)
    ensures
        final(out)@ == old(out)@ + spec_signed_duration_text(*d, second_text@),
{
    proof {
        reveal_strlit("-");
    }
    let ghost start = out@;
    if d.sign < 0 {
        push_str(out, "-");
    }
    let text = duration_string(d, second_text);
    push_str(out, text.as_str());
    assert(out@ =~= start + spec_signed_duration_text(*d, second_text@));
}

/// The ISO 8601 text of an interval, in the form it was written in, with the
/// duration's seconds written as `second_text`; `None` when a timestamp of
/// the interval names no date-time in `chrono`'s range.
pub fn interval_text(iv: &DateTimeInterval, second_text: &str) -> (r: Option<String>)
    ensures
        r is Some <==> (spec_civil_from_timestamp(iv.start_seconds as int, iv.start_nanos as int)
            is Some && spec_civil_from_timestamp(iv.end_seconds as int, iv.end_nanos as int) is Some),
        r matches Some(s) ==> s@ == spec_interval_text(
            *iv,
            spec_civil_from_timestamp(iv.start_seconds as int, iv.start_nanos as int).unwrap(),
            spec_civil_from_timestamp(iv.end_seconds as int, iv.end_nanos as int).unwrap(),
            second_text@,
        ),
{
    proof {
        reveal_strlit("/");
    }
    let start = match civil_from_timestamp(iv.start_seconds, iv.start_nanos) {
        Some(c) => c,
        None => {
            return None;
        },
    };
    let end = match civil_from_timestamp(iv.end_seconds, iv.end_nanos) {
        Some(c) => c,
        None => {
            return None;
        },
    };
    let mut out = String::new();
    if iv.flag == INTERVAL_FLAG_START_DURATION {
        push_endpoint_text(&mut out, &start, iv.start_type);
        push_str(&mut out, "/");
        push_duration_text(&mut out, &iv.duration, second_text);
    } else if iv.flag == INTERVAL_FLAG_DURATION_END {
        push_duration_text(&mut out, &iv.duration, second_text);
        push_str(&mut out, "/");
        push_endpoint_text(&mut out, &end, iv.end_type);
    } else {
        push_endpoint_text(&mut out, &start, iv.start_type);
        push_str(&mut out, "/");
        push_endpoint_text(&mut out, &end, iv.end_type);
    }
    assert(out@ =~= spec_interval_text(*iv, start, end, second_text@));
    Some(out)
}

/// The ISO 8601 text of the interval held by a stored form; see
/// [`interval_text`].
pub fn interval_string_from_lexical(b: &[u8], second_text: &str) -> (r: Option<String>)
    requires
        b@.len() >= 48,
    ensures
        ({
            let iv = DateTimeInterval::spec_from_lexical(b@);
            &&& r is Some <==> (spec_civil_from_timestamp(iv.start_seconds as int, iv.start_nanos as int)
                is Some && spec_civil_from_timestamp(iv.end_seconds as int, iv.end_nanos as int) is Some)
            &&& r matches Some(s) ==> s@ == spec_interval_text(
                iv,
                spec_civil_from_timestamp(iv.start_seconds as int, iv.start_nanos as int).unwrap(),
                spec_civil_from_timestamp(iv.end_seconds as int, iv.end_nanos as int).unwrap(),
                second_text@,
            )
        }),
{
    let iv = DateTimeInterval::from_lexical(b);
    interval_text(&iv, second_text)
}

} // verus!
