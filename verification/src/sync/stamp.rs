use vstd::prelude::*;

verus! {

/// A point in time: whole seconds since the Unix epoch and the nanoseconds
/// within that second. It is informational; no rule of the store reads it.
#[derive(Clone, Copy, Debug, PartialEq, Eq, Structural)]
pub struct Timestamp {
    pub secs: i64,
    pub nanos: u32,
}

/// The identifier that stands for "no ancestor": the nil UUID.
pub open spec fn sentinel_id() -> u128 {
    0
}

/// The identifier that stands for "no ancestor".
pub fn sentinel() -> (id: u128)
    ensures
        id == sentinel_id(),
{
    0
}

/// Whether a 128-bit value carries the version and variant bits of a random
/// (version 4, RFC 4122) UUID.
pub open spec fn is_random_id(id: u128) -> bool {
    id & 0xf000_c000_0000_0000_0000u128 == 0x4000_8000_0000_0000_0000u128
}

/// A random identifier is never the sentinel.
pub proof fn lemma_random_id_not_sentinel(id: u128)
    requires
        is_random_id(id),
    ensures
        id != sentinel_id(),
{
    assert(id & 0xf000_c000_0000_0000_0000u128 == 0x4000_8000_0000_0000_0000u128 ==> id != 0)
        by (bit_vector);
}

/// Reads the clock with `chrono::Utc::now`. Nothing is claimed of the result.
#[verifier::external_body]
pub(crate) fn now() -> (t: Timestamp) {
    let t = chrono::Utc::now();
    Timestamp { secs: t.timestamp(), nanos: t.timestamp_subsec_nanos() }
}

/// Draws an identifier with `uuid::Uuid::new_v4`. Claimed of every outcome:
/// it carries the version and variant bits of a random UUID.
#[verifier::external_body]
pub(crate) fn fresh_id() -> (id: u128)
    ensures
        is_random_id(id),
{
    uuid::Uuid::new_v4().as_u128()
}

/// What `uuid::Uuid::parse_str` makes of a text, as a 128-bit value.
pub uninterp spec fn parsed_id(text: Seq<char>) -> Option<u128>;

/// Calls `uuid::Uuid::parse_str`. Claimed: whether the text is accepted, and
/// the value it stands for, depend on the text alone.
#[verifier::external_body]
pub(crate) fn parse_id(text: &str) -> (id: Option<u128>)
    ensures
        id == parsed_id(text@),
{
    match uuid::Uuid::parse_str(text) {
        Ok(u) => Some(u.as_u128()),
        Err(_) => None,
    }
}

} // verus!
