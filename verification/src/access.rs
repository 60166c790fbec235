//! What reading a memory does to it: its access count rises (up to a cap),
//! an expiring memory has its expiry pushed back, a mid-term memory read
//! often enough becomes long-term, and every tenth access raises its
//! priority (up to the highest priority).

use vstd::prelude::*;

use crate::models::Tier;
use crate::store::opt_str_view;

verus! {

/// The access count stops rising here.
pub const ACCESS_COUNT_CAP: i64 = 1000000;

/// The highest priority.
pub const PRIORITY_CAP: i32 = 10;

/// The fields of a stored memory that an access changes.
#[derive(Debug, Clone)]
pub struct AccessState {
    pub tier: Tier,
    pub access_count: i64,
    pub priority: i32,
    pub expires_at: Option<String>,
}

/// The fields after an access, and whether it promoted the memory to
/// long-term (the caller then also records the time of the update).
#[derive(Debug, Clone)]
pub struct AccessOutcome {
    pub state: AccessState,
    pub promoted: bool,
}

/// The access count after one more access: one more, but never above
/// [`ACCESS_COUNT_CAP`].
pub open spec fn counted_access(count: i64) -> int {
    if count + 1 < ACCESS_COUNT_CAP {
        count + 1
    } else {
        ACCESS_COUNT_CAP as int
    }
}

/// The expiry after an access: a short-term memory that expires now expires
/// at `short_expires`, a mid-term one at `mid_expires`; a memory without
/// expiry and a long-term memory keep theirs.
pub open spec fn extended_expiry(
    tier: Tier,
    expires_at: Option<Seq<char>>,
    short_expires: Seq<char>,
    mid_expires: Seq<char>,
) -> Option<Seq<char>> {
    match (tier, expires_at) {
        (Tier::Short, Some(_)) => Some(short_expires),
        (Tier::Mid, Some(_)) => Some(mid_expires),
        _ => expires_at,
    }
}

/// A mid-term memory whose access count has reached the threshold becomes
/// long-term.
pub open spec fn promotes(tier: Tier, count: int, threshold: i64) -> bool {
    tier == Tier::Mid && count >= threshold
}

/// The priority after an access that brought the count to `count`: one
/// higher when the count is a positive multiple of ten and the priority is
/// below [`PRIORITY_CAP`].
pub open spec fn raised_priority(priority: i32, count: int) -> int {
    if count > 0 && count % 10 == 0 && priority < PRIORITY_CAP {
        priority + 1
    } else {
        priority as int
    }
}

/// Plan one access to a memory in `state`.  `short_expires` and
/// `mid_expires` are the expiry times that an access grants to short- and
/// mid-term memories; `promotion_threshold` is the access count at which a
/// mid-term memory becomes long-term.
pub fn plan_access(
    state: &AccessState,
    short_expires: &str,
    mid_expires: &str,
    promotion_threshold: i64,
) -> (r: AccessOutcome)
    ensures
        r.state.access_count == counted_access(state.access_count),
        r.promoted == promotes(state.tier, counted_access(state.access_count), promotion_threshold),
        r.state.tier == (if r.promoted {
            Tier::Long
        } else {
            state.tier
        }),
        opt_str_view(r.state.expires_at) == (if r.promoted {
            None
        } else {
            extended_expiry(
                state.tier,
                opt_str_view(state.expires_at),
                short_expires@,
                mid_expires@,
            )
        }),
        r.state.priority == raised_priority(state.priority, counted_access(state.access_count)),
        // An access never lowers the tier, and never moves the expiry of a
        // long-term memory.
        r.state.tier.rank() >= state.tier.rank(),
        state.tier == Tier::Long ==> r.state.tier == Tier::Long && r.state.expires_at
            == state.expires_at,
        r.state.access_count <= ACCESS_COUNT_CAP,
        // One more access, up to the cap.
        state.access_count < ACCESS_COUNT_CAP ==> r.state.access_count == state.access_count + 1,
        state.access_count >= ACCESS_COUNT_CAP ==> r.state.access_count == ACCESS_COUNT_CAP,
        // The priority rises by one exactly on an access that brings the
        // count to a positive multiple of ten, while it is below the cap.
        r.state.access_count % 10 != 0 ==> r.state.priority == state.priority,
        r.state.priority == state.priority || r.state.priority == state.priority + 1,
        r.state.priority == state.priority + 1 <==> (r.state.access_count > 0
            && r.state.access_count % 10 == 0 && state.priority < PRIORITY_CAP),
        // Promotion: exactly a mid-term memory whose new count reaches the
        // threshold; it becomes long-term without expiry.  Otherwise the
        // tier stays.
        r.promoted <==> (state.tier == Tier::Mid && r.state.access_count >= promotion_threshold),
        r.promoted ==> r.state.tier == Tier::Long && r.state.expires_at is None,
        !r.promoted ==> r.state.tier == state.tier,
        // Expiry: an expiring short- or mid-term memory that is not
        // promoted gets the new expiry of its tier; a memory without expiry
        // keeps none.
        state.expires_at is None ==> r.state.expires_at is None,
        (state.tier == Tier::Short && state.expires_at is Some) ==> opt_str_view(r.state.expires_at)
            == Some(short_expires@),
        (!r.promoted && state.tier == Tier::Mid && state.expires_at is Some) ==> opt_str_view(
            r.state.expires_at,
        ) == Some(mid_expires@),
{
    let count: i64 = if state.access_count >= ACCESS_COUNT_CAP - 1 {
        ACCESS_COUNT_CAP
    } else {
        state.access_count + 1
    };
    let extended: Option<String> = match (state.tier, &state.expires_at) {
        (Tier::Short, Some(_)) => Some(String::from_str(short_expires)),
        (Tier::Mid, Some(_)) => Some(String::from_str(mid_expires)),
        _ => state.expires_at.clone(),
    };
    let promoted = state.tier == Tier::Mid && count >= promotion_threshold;
    let priority: i32 = if count > 0 && count % 10 == 0 && state.priority < PRIORITY_CAP {
        state.priority + 1
    } else {
        state.priority
    };
    AccessOutcome {
        state: AccessState {
            tier: if promoted {
                Tier::Long
            } else {
                state.tier
            },
            access_count: count,
            priority,
            expires_at: if promoted {
                None
            } else {
                extended
            },
        },
        promoted,
    }
}

/// Accessing a memory often enough makes it permanent: starting from any
/// count, after an access that brings a mid-term memory's count to the
/// threshold (which the cap allows), it is long-term and expires no more.
pub proof fn lemma_frequent_access_promotes(count: i64, threshold: i64)
    requires
        threshold <= ACCESS_COUNT_CAP,
        count + 1 >= threshold,
    ensures
        promotes(Tier::Mid, counted_access(count), threshold),
{
}

/// What one access does, stated on the counts themselves: the count rises
/// by one until the cap and then stays there; the priority rises by one
/// only when the new count is a positive multiple of ten and the priority
/// is below the cap, and otherwise stays; promotion happens exactly to a
/// mid-term memory whose new count reaches the threshold; a long-term
/// memory or one without expiry keeps its expiry, and an expiring short- or
/// mid-term memory gets the expiry of its tier.
pub proof fn lemma_access_rules(
    tier: Tier,
    count: i64,
    priority: i32,
    expires_at: Option<Seq<char>>,
    short_expires: Seq<char>,
    mid_expires: Seq<char>,
    threshold: i64,
)
    ensures
        count < ACCESS_COUNT_CAP ==> counted_access(count) == count + 1,
        count >= ACCESS_COUNT_CAP ==> counted_access(count) == ACCESS_COUNT_CAP,
        counted_access(count) % 10 != 0 ==> raised_priority(priority, counted_access(count))
            == priority,
        (counted_access(count) > 0 && counted_access(count) % 10 == 0 && priority < 10)
            ==> raised_priority(priority, counted_access(count)) == priority + 1,
        priority >= 10 ==> raised_priority(priority, counted_access(count)) == priority,
        promotes(tier, counted_access(count), threshold) <==> (tier == Tier::Mid
            && counted_access(count) >= threshold),
        tier == Tier::Long ==> extended_expiry(tier, expires_at, short_expires, mid_expires)
            == expires_at,
        expires_at is None ==> extended_expiry(tier, expires_at, short_expires, mid_expires)
            is None,
        (tier == Tier::Short && expires_at is Some) ==> extended_expiry(
            tier,
            expires_at,
            short_expires,
            mid_expires,
        ) == Some(short_expires),
        (tier == Tier::Mid && expires_at is Some) ==> extended_expiry(
            tier,
            expires_at,
            short_expires,
            mid_expires,
        ) == Some(mid_expires),
{
}

} // verus!
