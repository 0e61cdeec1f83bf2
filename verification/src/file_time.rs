//! Times of files in RFC 3339 notation, as the `time` crate writes its `Tm`.

use vstd::prelude::*;
use crate::decimal::decimal_spec;

verus! {

/// A broken-down time, field for field as the `time` crate's `Tm` holds it.
#[derive(Clone, Copy, Debug, PartialEq, Eq, Structural)]
pub struct FileTime {
    pub tm_sec: i32,
    pub tm_min: i32,
    pub tm_hour: i32,
    pub tm_mday: i32,
    pub tm_mon: i32,
    pub tm_year: i32,
    pub tm_wday: i32,
    pub tm_yday: i32,
    pub tm_isdst: i32,
    pub tm_utcoff: i32,
    pub tm_nsec: i32,
}

/// Whether the notation of `t` can be computed without overflowing `i32`:
/// the year plus 1900, the month plus one, and the magnitude of the offset.
pub open spec fn formattable(t: FileTime) -> bool {
    &&& t.tm_year <= i32::MAX - 1900
    &&& t.tm_mon < i32::MAX
    &&& t.tm_utcoff > i32::MIN
}

/// An integer as `{}` writes it.
pub open spec fn signed_decimal(n: int) -> Seq<char> {
    if n < 0 {
        "-"@ + decimal_spec((-n) as nat)
    } else {
        decimal_spec(n as nat)
    }
}

/// An integer as `{:02}` writes it: a single digit gets a leading zero.
pub open spec fn two_digits(n: int) -> Seq<char> {
    if 0 <= n < 10 {
        "0"@ + decimal_spec(n as nat)
    } else {
        signed_decimal(n)
    }
}

/// The UTC offset as `+hh:mm` or `-hh:mm`, from its seconds (not zero).
pub open spec fn offset_text(utcoff: int) -> Seq<char> {
    let minutes = (if utcoff < 0 { -utcoff } else { utcoff }) / 60;
    let h = minutes / 60;
    let m = minutes - h * 60;
    (if utcoff > 0 { "+"@ } else { "-"@ }) + two_digits(h) + ":"@ + two_digits(m)
}

/// The RFC 3339 notation of `t`: `%Y-%m-%dT%H:%M:%S`, then `Z` when the UTC
/// offset is zero and the offset otherwise.
#[verifier::opaque]
pub open spec fn rfc3339_spec(t: FileTime) -> Seq<char> {
    signed_decimal(t.tm_year + 1900) + "-"@ + two_digits(t.tm_mon + 1) + "-"@ + two_digits(t.tm_mday as int)
        + "T"@ + two_digits(t.tm_hour as int) + ":"@ + two_digits(t.tm_min as int) + ":"@ + two_digits(
        t.tm_sec as int,
    ) + if t.tm_utcoff == 0 {
        "Z"@
    } else {
        offset_text(t.tm_utcoff as int)
    }
}

/// `time::Tm::rfc3339` rendered with `to_string`: the `TmFmt` display of that
/// format writes the date, time and offset fields as `rfc3339_spec` states.
/// The other fields play no part.
#[verifier::external_body]
pub(crate) fn tm_rfc3339(t: &FileTime) -> (r: String)
    requires
        formattable(*t),
    ensures
        r@ == rfc3339_spec(*t),
{
    time::Tm { tm_sec: t.tm_sec, tm_min: t.tm_min, tm_hour: t.tm_hour, tm_mday: t.tm_mday, tm_mon: t.tm_mon,
        tm_year: t.tm_year, tm_wday: t.tm_wday, tm_yday: t.tm_yday, tm_isdst: t.tm_isdst,
        tm_utcoff: t.tm_utcoff, tm_nsec: t.tm_nsec }.rfc3339().to_string()
}

impl FileTime {
    /// Whether this time's notation can be computed; see [`formattable`].
    pub fn is_formattable(&self) -> (r: bool)
        ensures
            r == formattable(*self),
    {
        self.tm_year <= i32::MAX - 1900 && self.tm_mon < i32::MAX && self.tm_utcoff > i32::MIN
    }

}

} // verus!
