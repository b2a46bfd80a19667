use vstd::prelude::*;

use vstd::string::StringExecFns;

use crate::text::{i32_to_string, pad2, pad3, spec_dec_signed, spec_pad2, spec_pad3};

verus! {

#[verifier::external_type_specification]
#[verifier::external_body]
pub struct ExOffsetDateTime(time::OffsetDateTime);

/// Relies on `time::OffsetDateTime::now_utc`: the current instant, in
/// UTC.  Nothing can be promised of a clock reading.
#[verifier::external_body]
pub fn now() -> time::OffsetDateTime {
    time::OffsetDateTime::now_utc()
}

/// Relies on `time::OffsetDateTime::to_calendar_date`: the year, month
/// and day of the instant's civil date, the month as its number.  The
/// crate's dates keep the year within four digits and the month and day
/// within their calendar ranges.
#[verifier::external_body]
fn calendar_date_of(t: &time::OffsetDateTime) -> (r: (i32, u8, u8))
    ensures
        -9999 <= r.0 <= 9999,
        1 <= r.1 <= 12,
        1 <= r.2 <= 31,
{
    let (y, m, d) = t.to_calendar_date();
    (y, m as u8, d)
}

/// Relies on `time::OffsetDateTime::to_hms_milli`: the hour, minute,
/// second and millisecond of the instant's clock time, each within its
/// clock range.
#[verifier::external_body]
fn hms_milli_of(t: &time::OffsetDateTime) -> (r: (u8, u8, u8, u16))
    ensures
        r.0 <= 23,
        r.1 <= 59,
        r.2 <= 59,
        r.3 <= 999,
{
    t.to_hms_milli()
}

/// One instant broken into plain calendar and clock fields.
#[derive(Clone, Copy)]
pub struct DateTimeParts {
    pub year: i32,
    pub month: u8,
    pub day: u8,
    pub hour: u8,
    pub minute: u8,
    pub second: u8,
    pub millisecond: u16,
}

impl DateTimeParts {
    /// Every field within its calendar or clock range.
    pub open spec fn wf(&self) -> bool {
        &&& -9999 <= self.year <= 9999
        &&& 1 <= self.month <= 12
        &&& 1 <= self.day <= 31
        &&& self.hour <= 23
        &&& self.minute <= 59
        &&& self.second <= 59
        &&& self.millisecond <= 999
    }
}

/// The current instant, broken into plain fields.
pub fn current_parts() -> (p: DateTimeParts)
    ensures
        p.wf(),
{
    let t = now();
    let (year, month, day) = calendar_date_of(&t);
    let (hour, minute, second, millisecond) = hms_milli_of(&t);
    DateTimeParts { year, month, day, hour, minute, second, millisecond }
}

/// The date as `year-month-day`, the month and day zero-padded to two
/// digits.
pub open spec fn spec_date_string(p: DateTimeParts) -> Seq<char> {
    spec_dec_signed(p.year as int) + seq!['-'] + spec_pad2(p.month as int) + seq!['-'] + spec_pad2(
        p.day as int,
    )
}

/// The instant as `year-month-dayThour-minute-second`, each clock field
/// zero-padded to two digits.
pub open spec fn spec_datetime_string(p: DateTimeParts) -> Seq<char> {
    spec_date_string(p) + seq!['T'] + spec_pad2(p.hour as int) + seq!['-'] + spec_pad2(
        p.minute as int,
    ) + seq!['-'] + spec_pad2(p.second as int)
}

/// The instant in the date-time shape an SQL store accepts:
/// `year-month-day hour:minute:second.millisecond`.
pub open spec fn spec_sql_string(p: DateTimeParts) -> Seq<char> {
    spec_date_string(p) + seq![' '] + spec_pad2(p.hour as int) + seq![':'] + spec_pad2(
        p.minute as int,
    ) + seq![':'] + spec_pad2(p.second as int) + seq!['.'] + spec_pad3(p.millisecond as int)
}

/// Renders the date of `p` as `year-month-day`.
pub fn format_yyyy_mm_dd(p: DateTimeParts) -> (s: String)
    ensures
        s@ == spec_date_string(p),
{
    let mut s = i32_to_string(p.year);
    s.append("-");
    proof {
        reveal_strlit("-");
        assert("-"@ =~= seq!['-']);
    }
    s.append(pad2(p.month).as_str());
    s.append("-");
    s.append(pad2(p.day).as_str());
    s
}

/// Renders `p` as `year-month-dayThour-minute-second`.
pub fn format_yyyy_mm_dd_hh_mm_ss(p: DateTimeParts) -> (s: String)
    ensures
        s@ == spec_datetime_string(p),
{
    let mut s = format_yyyy_mm_dd(p);
    s.append("T");
    proof {
        reveal_strlit("T");
        reveal_strlit("-");
        assert("T"@ =~= seq!['T']);
        assert("-"@ =~= seq!['-']);
    }
    s.append(pad2(p.hour).as_str());
    s.append("-");
    s.append(pad2(p.minute).as_str());
    s.append("-");
    s.append(pad2(p.second).as_str());
    s
}

/// Renders `p` in the date-time shape an SQL store accepts.
pub fn format_sql(p: DateTimeParts) -> (s: String)
    ensures
        s@ == spec_sql_string(p),
{
    let mut s = format_yyyy_mm_dd(p);
    s.append(" ");
    proof {
        reveal_strlit(" ");
        reveal_strlit(":");
        reveal_strlit(".");
        assert(" "@ =~= seq![' ']);
        assert(":"@ =~= seq![':']);
        assert("."@ =~= seq!['.']);
    }
    s.append(pad2(p.hour).as_str());
    s.append(":");
    s.append(pad2(p.minute).as_str());
    s.append(":");
    s.append(pad2(p.second).as_str());
    s.append(".");
    s.append(pad3(p.millisecond).as_str());
    s
}

/// The current date as `year-month-day`.
pub fn now_to_yyyy_mm_dd() -> (s: String)
    ensures
        exists|p: DateTimeParts| p.wf() && s@ == spec_date_string(p),
{
    let p = current_parts();
    let s = format_yyyy_mm_dd(p);
    proof {
        assert(p.wf() && s@ == spec_date_string(p));
    }
    s
}

/// The current instant as `year-month-dayThour-minute-second`, a shape
/// safe inside a file name.
pub fn now_to_yyyy_mm_dd_hh_mm_ss() -> (s: String)
    ensures
        exists|p: DateTimeParts| p.wf() && s@ == spec_datetime_string(p),
{
    let p = current_parts();
    let s = format_yyyy_mm_dd_hh_mm_ss(p);
    proof {
        assert(p.wf() && s@ == spec_datetime_string(p));
    }
    s
}

/// The current instant in the date-time shape an SQL store accepts.
pub fn now_to_sql() -> (s: String)
    ensures
        exists|p: DateTimeParts| p.wf() && s@ == spec_sql_string(p),
{
    let p = current_parts();
    let s = format_sql(p);
    proof {
        assert(p.wf() && s@ == spec_sql_string(p));
    }
    s
}

} // verus!
