//! Time stamps and random identifiers.

use vstd::prelude::*;

verus! {

#[verifier::external_type_specification]
#[verifier::external_body]
pub struct ExSystemTime(std::time::SystemTime);

/// The system clock's reading (`SystemTime::now`). Nothing is promised of
/// it: it is the clock's.
#[verifier::external_body]
fn system_now() -> std::time::SystemTime {
    std::time::SystemTime::now()
}

/// The time from the Unix epoch to `t` (`SystemTime::duration_since` with
/// `UNIX_EPOCH`), or `None` when `t` is earlier than the epoch.
#[verifier::external_body]
fn since_epoch(t: &std::time::SystemTime) -> Option<std::time::Duration> {
    t.duration_since(std::time::UNIX_EPOCH).ok()
}

/// The whole milliseconds of a duration (`Duration::as_millis`).
#[verifier::external_body]
fn duration_millis(d: &std::time::Duration) -> u128 {
    d.as_millis()
}

/// A millisecond count as a `u64`, truncated as `as u64` does.
pub fn millis_to_u64(ms: u128) -> (r: u64)
    ensures
        r == ms as u64,
{
    ms as u64
}

/// The current time in milliseconds since the Unix epoch, or `None` when
/// the clock reads earlier than the epoch. Nothing is promised of the value:
/// it is the clock's, and any `u64` can be a reading.
pub fn now_ms() -> Option<u64> {
    match since_epoch(&system_now()) {
        Some(d) => Some(millis_to_u64(duration_millis(&d))),
        None => None,
    }
}

/// The current time in whole seconds since the Unix epoch, or `None` when
/// the clock reads earlier than the epoch. Nothing is promised of the
/// value: it is the clock's.
pub fn now_secs() -> Option<u64> {
    match since_epoch(&system_now()) {
        Some(d) => Some(millis_to_u64(duration_millis(&d) / 1000)),
        None => None,
    }
}

/// Whether `c` is a lowercase hexadecimal digit.
pub open spec fn is_lower_hex(c: char) -> bool {
    ('0' <= c && c <= '9') || ('a' <= c && c <= 'f')
}

/// `s` is the hyphenated lowercase text of a version 4 (random) UUID:
/// 8-4-4-4-12 hexadecimal digits, version digit `4`, and a variant digit
/// among `8`, `9`, `a`, `b`.
pub open spec fn is_uuid_v4_text(s: Seq<char>) -> bool {
    &&& s.len() == 36
    &&& forall|i: int| 0 <= i < 36 ==> if i == 8 || i == 13 || i == 18 || i == 23 {
            #[trigger] s[i] == '-'
        } else {
            is_lower_hex(s[i])
        }
    &&& s[14] == '4'
    &&& (s[19] == '8' || s[19] == '9' || s[19] == 'a' || s[19] == 'b')
}

/// A fresh random identifier (`uuid::Uuid::new_v4`), in its hyphenated
/// lowercase text form (`to_string`, which formats through `LowerHex` and
/// the hyphenated form). `new_v4` sets the version nibble to 4 and the two
/// top variant bits to `10`. Nothing else is promised: the rest is random.
#[verifier::external_body]
pub(crate) fn new_uuid() -> (r: String)
    ensures
        is_uuid_v4_text(r@),
{
    uuid::Uuid::new_v4().to_string()
}

} // verus!
