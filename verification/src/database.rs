//! Plain record types for the persistence collaborator and the verified
//! rules that build them. The store calls themselves live outside the
//! library and hand these types in and out.

use vstd::prelude::*;

verus! {

/// A moderation record: who is banned, since when, until when (`-1` for a
/// permanent ban), by whom and why.
#[derive(Clone, Debug)]
pub struct BanEntry {
    pub user_id: i64,
    pub banned_time: i64,
    pub banned_until: i64,
    pub moderator: String,
    pub reason: String,
}

/// The instant a ban ends: `-1` (permanent) when the requested duration is
/// `-1`, otherwise the current instant plus `duration_in_minutes * 60`.
pub fn banned_until_time(time_now: i64, duration_in_minutes: i32) -> (t: i64)
    requires
        duration_in_minutes != -1 ==> i64::MIN <= time_now + duration_in_minutes * 60
            <= i64::MAX,
    ensures
        t == if duration_in_minutes == -1 {
            -1int
        } else {
            time_now + duration_in_minutes * 60
        },
{
    if duration_in_minutes != -1 {
        time_now + (duration_in_minutes as i64) * 60
    } else {
        -1
    }
}

/// The ban record the backend persists for a moderation action: the user,
/// the current instant, the computed end instant, and the moderator's name
/// and reason, copied verbatim.
pub fn make_ban_entry(
    user_id: u64,
    time_now: i64,
    duration_in_minutes: i32,
    moderator: &str,
    reason: &str,
) -> (e: BanEntry)
    requires
        user_id <= i64::MAX,
        duration_in_minutes != -1 ==> i64::MIN <= time_now + duration_in_minutes * 60
            <= i64::MAX,
    ensures
        e.user_id == user_id,
        e.banned_time == time_now,
        e.banned_until == if duration_in_minutes == -1 {
            -1int
        } else {
            time_now + duration_in_minutes * 60
        },
        e.moderator@ == moderator@,
        e.reason@ == reason@,
{
    BanEntry {
        user_id: user_id as i64,
        banned_time: time_now,
        banned_until: banned_until_time(time_now, duration_in_minutes),
        moderator: moderator.to_owned(),
        reason: reason.to_owned(),
    }
}

/// The seed a fresh API key is minted from: eight times the number of keys
/// already stored plus twice the current instant, so the seed varies with
/// both.
pub fn api_key_seed(doc_count: u64, time_now: u64) -> (s: u64)
    requires
        doc_count * 8 + time_now * 2 <= u64::MAX,
    ensures
        s == doc_count * 8 + time_now * 2,
{
    doc_count * 8 + time_now * 2
}

} // verus!
