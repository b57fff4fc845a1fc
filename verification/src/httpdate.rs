//! The `Date` header: the current UTC time rendered in RFC 1123 form,
//! e.g. `Sun,  6 Nov 1994 08:49:37 GMT`.
use vstd::prelude::*;

use chrono::Datelike;
use chrono::Timelike;

use crate::bytes::bytes_of;
use crate::bytes::push_str;
use crate::numbers::dec;

verus! {

/// A civil date and time in UTC, held as plain fields.
///
/// `weekday` counts days from Sunday, so Sunday is 0 and Saturday is 6.
#[derive(Clone, Copy, Debug, PartialEq, Eq, Structural)]
pub struct HTTPDate {
    pub year: u16,
    pub month: u8,
    pub day: u8,
    pub weekday: u8,
    pub hour: u8,
    pub minute: u8,
    pub second: u8,
}

/// The three-letter English name of a weekday, Sunday first.
pub open spec fn spec_weekday_name(w: u8) -> Seq<char> {
    if w == 0 {
        "Sun"@
    } else if w == 1 {
        "Mon"@
    } else if w == 2 {
        "Tue"@
    } else if w == 3 {
        "Wed"@
    } else if w == 4 {
        "Thu"@
    } else if w == 5 {
        "Fri"@
    } else {
        "Sat"@
    }
}

/// The three-letter English name of a month, counted from 1.
pub open spec fn spec_month_name(m: u8) -> Seq<char> {
    if m <= 1 {
        "Jan"@
    } else if m == 2 {
        "Feb"@
    } else if m == 3 {
        "Mar"@
    } else if m == 4 {
        "Apr"@
    } else if m == 5 {
        "May"@
    } else if m == 6 {
        "Jun"@
    } else if m == 7 {
        "Jul"@
    } else if m == 8 {
        "Aug"@
    } else if m == 9 {
        "Sep"@
    } else if m == 10 {
        "Oct"@
    } else if m == 11 {
        "Nov"@
    } else {
        "Dec"@
    }
}

/// A number as exactly two decimal digits, zero padded.
pub open spec fn dec2(n: u8) -> Seq<u8> {
    seq![(48 + (n / 10) % 10) as u8, (48 + n % 10) as u8]
}

/// A day of month: two characters, space padded on the left.
pub open spec fn day2(n: u8) -> Seq<u8> {
    if n < 10 {
        seq![32u8, (48 + n) as u8]
    } else {
        dec(n as nat)
    }
}

/// A year: at least four decimal digits, zero padded.
pub open spec fn year4(y: u16) -> Seq<u8> {
    if y > 9999 {
        dec(y as nat)
    } else {
        seq![
            (48 + (y / 1000) % 10) as u8,
            (48 + (y / 100) % 10) as u8,
            (48 + (y / 10) % 10) as u8,
            (48 + y % 10) as u8,
        ]
    }
}

/// The RFC 1123 rendering of a date, for the `Date` header.
pub open spec fn spec_rfc1123(d: HTTPDate) -> Seq<u8> {
    bytes_of(spec_weekday_name(d.weekday)) + bytes_of(", "@) + day2(d.day) + bytes_of(" "@)
        + bytes_of(spec_month_name(d.month)) + bytes_of(" "@) + year4(d.year) + bytes_of(" "@)
        + dec2(d.hour) + bytes_of(":"@) + dec2(d.minute) + bytes_of(":"@) + dec2(d.second)
        + bytes_of(" GMT"@)
}

/// Appends the weekday name to `out`.
fn push_weekday(out: &mut Vec<u8>, w: u8)
    ensures
        final(out)@ == old(out)@ + bytes_of(spec_weekday_name(w)),
{
    proof {
        reveal_strlit("Sun");
        reveal_strlit("Mon");
        reveal_strlit("Tue");
        reveal_strlit("Wed");
        reveal_strlit("Thu");
        reveal_strlit("Fri");
        reveal_strlit("Sat");
    }
    if w == 0 {
        push_str(out, "Sun");
    } else if w == 1 {
        push_str(out, "Mon");
    } else if w == 2 {
        push_str(out, "Tue");
    } else if w == 3 {
        push_str(out, "Wed");
    } else if w == 4 {
        push_str(out, "Thu");
    } else if w == 5 {
        push_str(out, "Fri");
    } else {
        push_str(out, "Sat");
    }
}

/// Appends the month name to `out`.
fn push_month(out: &mut Vec<u8>, m: u8)
    ensures
        final(out)@ == old(out)@ + bytes_of(spec_month_name(m)),
{
    proof {
        reveal_strlit("Jan");
        reveal_strlit("Feb");
        reveal_strlit("Mar");
        reveal_strlit("Apr");
        reveal_strlit("May");
        reveal_strlit("Jun");
        reveal_strlit("Jul");
        reveal_strlit("Aug");
        reveal_strlit("Sep");
        reveal_strlit("Oct");
        reveal_strlit("Nov");
        reveal_strlit("Dec");
    }
    if m <= 1 {
        push_str(out, "Jan");
    } else if m == 2 {
        push_str(out, "Feb");
    } else if m == 3 {
        push_str(out, "Mar");
    } else if m == 4 {
        push_str(out, "Apr");
    } else if m == 5 {
        push_str(out, "May");
    } else if m == 6 {
        push_str(out, "Jun");
    } else if m == 7 {
        push_str(out, "Jul");
    } else if m == 8 {
        push_str(out, "Aug");
    } else if m == 9 {
        push_str(out, "Sep");
    } else if m == 10 {
        push_str(out, "Oct");
    } else if m == 11 {
        push_str(out, "Nov");
    } else {
        push_str(out, "Dec");
    }
}

impl HTTPDate {
    /// The current date and time.
    ///
    /// Relies on chrono's `Utc::now` together with its `Datelike`,
    /// `Timelike` and `Weekday` accessors; the clauses state the ranges
    /// that chrono documents for those accessors (month 1 to 12, day 1 to
    /// 31, weekday 0 to 6 from Sunday, hour below 24, minute and second
    /// below 60).
    #[verifier::external_body]
    pub fn new() -> (r: HTTPDate)
        ensures
            1 <= r.month <= 12,
            1 <= r.day <= 31,
            r.weekday < 7,
            r.hour < 24,
            r.minute < 60,
            r.second < 60,
    {
        let now = chrono::Utc::now();
        HTTPDate {
            year: now.year() as u16,
            month: now.month() as u8,
            day: now.day() as u8,
            weekday: now.weekday().num_days_from_sunday() as u8,
            hour: now.hour() as u8,
            minute: now.minute() as u8,
            second: now.second() as u8,
        }
    }

    /// This date in RFC 1123 form, as ASCII bytes.
    #[verifier::rlimit(60)]
    pub fn to_bytes(&self) -> (r: Vec<u8>)
        ensures
            r@ == spec_rfc1123(*self),
    {
        proof {
            reveal_strlit(", ");
            reveal_strlit(" ");
            reveal_strlit(":");
            reveal_strlit(" GMT");
        }
        let mut out: Vec<u8> = Vec::new();
        push_weekday(&mut out, self.weekday);
        push_str(&mut out, ", ");
        if self.day < 10 {
            out.push(32);
            out.push(48 + self.day);
        } else {
            crate::numbers::push_dec(&mut out, self.day as u64);
        }
        assert(out@ =~= bytes_of(spec_weekday_name(self.weekday)) + bytes_of(", "@) + day2(
            self.day,
        ));
        push_str(&mut out, " ");
        push_month(&mut out, self.month);
        push_str(&mut out, " ");
        let y = self.year;
        if y > 9999 {
            crate::numbers::push_dec(&mut out, y as u64);
        } else {
            out.push(48 + ((y / 1000) % 10) as u8);
            out.push(48 + ((y / 100) % 10) as u8);
            out.push(48 + ((y / 10) % 10) as u8);
            out.push(48 + (y % 10) as u8);
        }
        assert(out@ =~= bytes_of(spec_weekday_name(self.weekday)) + bytes_of(", "@) + day2(
            self.day,
        ) + bytes_of(" "@) + bytes_of(spec_month_name(self.month)) + bytes_of(" "@) + year4(
            self.year,
        ));
        push_str(&mut out, " ");
        out.push(48 + (self.hour / 10) % 10);
        out.push(48 + self.hour % 10);
        push_str(&mut out, ":");
        out.push(48 + (self.minute / 10) % 10);
        out.push(48 + self.minute % 10);
        push_str(&mut out, ":");
        out.push(48 + (self.second / 10) % 10);
        out.push(48 + self.second % 10);
        push_str(&mut out, " GMT");
        assert(out@ =~= spec_rfc1123(*self));
        out
    }
}

} // verus!
