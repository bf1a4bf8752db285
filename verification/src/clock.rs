//! Reading the wall clock through `chrono`.
use vstd::arithmetic::div_mod::lemma_fundamental_div_mod_converse;
use vstd::prelude::*;

verus! {

/// `chrono::Utc::now` followed by `DateTime::timestamp_nanos`: the current
/// time in nanoseconds since the Unix epoch. The value depends on the
/// machine's clock, so nothing is stated of it.
#[verifier::external_body]
pub(crate) fn now_nanos() -> (r: i64) {
    #[allow(deprecated)]
    chrono::Utc::now().timestamp_nanos()
}

} // verus!

verus! {

/// `chrono::NaiveDateTime`: a date and time without a time zone. Values
/// of it are carried and compared, never looked into.
#[verifier::external_type_specification]
#[verifier::external_body]
pub struct ExNaiveDateTime(chrono::NaiveDateTime);

/// What `NaiveDateTime::from_timestamp_opt(secs, nsecs)` returns: the date
/// and time `secs` seconds and `nsecs` nanoseconds after the Unix epoch,
/// when there is one. It depends on its two arguments alone.
pub uninterp spec fn naive_from_timestamp_result(secs: i64, nsecs: u32) -> Option<
    chrono::NaiveDateTime,
>;

/// `NaiveDateTime::from_timestamp_opt`: the date and time `secs` seconds
/// and `nsecs` nanoseconds after the Unix epoch. Its source returns `None`
/// for a nanosecond count of two seconds or more (where its documentation
/// speaks of a panic, the code does not panic), and `Some` for every
/// nanosecond count below one second when `secs` is less than about 262,000
/// years away (the bound below is stricter). The result is named, not
/// spelled out: the calendar arithmetic is chrono's.
#[verifier::external_body]
pub(crate) fn naive_from_timestamp(secs: i64, nsecs: u32) -> (r: Option<chrono::NaiveDateTime>)
    ensures
        r == naive_from_timestamp_result(secs, nsecs),
        nsecs < 1_000_000_000 && -8_000_000_000_000 <= secs <= 8_000_000_000_000 ==> r is Some,
        nsecs >= 2_000_000_000 ==> r is None,
{
    #[allow(deprecated)]
    chrono::NaiveDateTime::from_timestamp_opt(secs, nsecs)
}

/// The timestamps `ns_to_datetime` accepts: whole seconds before the
/// epoch, and any number of nanoseconds from it on.
pub open spec fn datetime_convertible(timestamp_ns: i64) -> bool {
    timestamp_ns >= 0 || timestamp_ns % 1_000_000_000 == 0
}

/// Splits a timestamp in nanoseconds into whole seconds and the nanoseconds
/// past them.
pub fn split_timestamp(timestamp_ns: i64) -> (r: (i64, u32))
    requires
        datetime_convertible(timestamp_ns),
    ensures
        r.0 * 1_000_000_000 + r.1 == timestamp_ns,
        r.1 < 1_000_000_000,
        -10_000_000_000 <= r.0 <= 10_000_000_000,
{
    let nano: i64 = 1_000_000_000;
    let secs = timestamp_ns / nano;
    let ns = timestamp_ns % nano;
    (secs, ns as u32)
}

/// The date and time `timestamp_ns` nanoseconds after the Unix epoch: the
/// conversion of its whole seconds and of the nanoseconds past them.
pub open spec fn datetime_of(timestamp_ns: i64) -> Option<chrono::NaiveDateTime> {
    naive_from_timestamp_result(
        (timestamp_ns / 1_000_000_000) as i64,
        (timestamp_ns % 1_000_000_000) as u32,
    )
}

/// The date and time (in UTC) `timestamp_ns` nanoseconds after the Unix
/// epoch.
///
/// A negative timestamp that is not a whole number of seconds makes the
/// nanosecond part negative, which the conversion refuses; such inputs are
/// left out.
pub fn ns_to_datetime(timestamp_ns: i64) -> (r: chrono::NaiveDateTime)
    requires
        datetime_convertible(timestamp_ns),
    ensures
        datetime_of(timestamp_ns) == Some(r),
{
    let (secs, ns) = split_timestamp(timestamp_ns);
    proof {
        lemma_fundamental_div_mod_converse(timestamp_ns as int, 1_000_000_000, secs as int, ns as int);
    }
    // the input keeps both parts in the accepted range
    naive_from_timestamp(secs, ns).unwrap()
}

} // verus!
