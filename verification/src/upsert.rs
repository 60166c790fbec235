//! Writes under a title that the namespace already holds.  A store merges
//! the written memory into the stored one; a sync (the import of a memory
//! from another database) takes the written content only when it is newer.
//! Neither lowers the tier or the priority of the stored memory.

use vstd::prelude::*;

use crate::models::Tier;
use crate::text::{lemma_lex_asymmetric, lemma_lex_irreflexive, lex_less, lex_lt, chars_of};

verus! {

/// The fields of a memory row that a write under the same title and
/// namespace merges (the confidence excepted: the caller keeps the larger
/// of the two, a float).
#[derive(Debug, Clone)]
pub struct RowFields {
    pub tier: Tier,
    pub content: String,
    /// The `tags` column, a JSON array of strings.
    pub tags_json: String,
    pub priority: i32,
    pub source: String,
    pub access_count: i64,
    /// RFC 3339 time of the last update.
    pub updated_at: String,
    pub expires_at: Option<String>,
}

/// The values held by a [`RowFields`].
pub struct RowView {
    pub tier: Tier,
    pub content: Seq<char>,
    pub tags_json: Seq<char>,
    pub priority: i32,
    pub source: Seq<char>,
    pub access_count: i64,
    pub updated_at: Seq<char>,
    pub expires_at: Option<Seq<char>>,
}

impl View for RowFields {
    type V = RowView;

    open spec fn view(&self) -> RowView {
        RowView {
            tier: self.tier,
            content: self.content@,
            tags_json: self.tags_json@,
            priority: self.priority,
            source: self.source@,
            access_count: self.access_count,
            updated_at: self.updated_at@,
            expires_at: match self.expires_at {
                Some(e) => Some(e@),
                None => None,
            },
        }
    }
}

/// The tier after a write: long-term if either side is, otherwise mid-term
/// if the written side is, otherwise the stored tier.
pub open spec fn merged_tier(stored: Tier, written: Tier) -> Tier {
    if written == Tier::Long {
        Tier::Long
    } else if stored == Tier::Long {
        Tier::Long
    } else if written == Tier::Mid {
        Tier::Mid
    } else {
        stored
    }
}

/// The expiry after a write: none when either side is long-term, otherwise
/// the written expiry, or the stored one when the write has none.
pub open spec fn merged_expiry(stored: RowView, written: RowView) -> Option<Seq<char>> {
    if written.tier == Tier::Long || stored.tier == Tier::Long {
        None
    } else {
        match written.expires_at {
            Some(e) => Some(e),
            None => stored.expires_at,
        }
    }
}

/// The larger of two priorities.
pub open spec fn higher_priority(a: i32, b: i32) -> i32 {
    if a >= b {
        a
    } else {
        b
    }
}

/// The row after storing `written` over `stored`: the written content, tags,
/// source and update time replace the stored ones; the priority is the
/// larger one; the access count stays; tier and expiry follow
/// [`merged_tier`] and [`merged_expiry`].
pub open spec fn row_after_store(stored: RowView, written: RowView) -> RowView {
    RowView {
        tier: merged_tier(stored.tier, written.tier),
        content: written.content,
        tags_json: written.tags_json,
        priority: higher_priority(stored.priority, written.priority),
        source: written.source,
        access_count: stored.access_count,
        updated_at: written.updated_at,
        expires_at: merged_expiry(stored, written),
    }
}

/// The written row is newer: its update time sorts after the stored one.
pub open spec fn is_newer(stored: RowView, written: RowView) -> bool {
    lex_lt(stored.updated_at, written.updated_at)
}

/// The row after syncing `written` into `stored`: content, tags, source and
/// update time come from the newer side (the stored side when neither is
/// newer); priority and access count are the larger ones; tier and expiry
/// follow [`merged_tier`] and [`merged_expiry`].
pub open spec fn row_after_sync(stored: RowView, written: RowView) -> RowView {
    let newer = is_newer(stored, written);
    RowView {
        tier: merged_tier(stored.tier, written.tier),
        content: if newer {
            written.content
        } else {
            stored.content
        },
        tags_json: if newer {
            written.tags_json
        } else {
            stored.tags_json
        },
        priority: higher_priority(stored.priority, written.priority),
        source: if newer {
            written.source
        } else {
            stored.source
        },
        access_count: if stored.access_count >= written.access_count {
            stored.access_count
        } else {
            written.access_count
        },
        updated_at: if newer {
            written.updated_at
        } else {
            stored.updated_at
        },
        expires_at: merged_expiry(stored, written),
    }
}

fn tier_after_write(stored: Tier, written: Tier) -> (r: Tier)
    ensures
        r == merged_tier(stored, written),
{
    match (stored, written) {
        (_, Tier::Long) => Tier::Long,
        (Tier::Long, _) => Tier::Long,
        (_, Tier::Mid) => Tier::Mid,
        (s, _) => s,
    }
}

fn expiry_after_write(stored: &RowFields, written: &RowFields) -> (r: Option<String>)
    ensures
        (match r {
            Some(e) => Some(e@),
            None => None,
        }) == merged_expiry(stored@, written@),
{
    match (stored.tier, written.tier) {
        (Tier::Long, _) => None,
        (_, Tier::Long) => None,
        _ => match &written.expires_at {
            Some(e) => Some(e.clone()),
            None => stored.expires_at.clone(),
        },
    }
}

/// Store `written` over the row `stored` that holds its title and namespace
/// (see [`row_after_store`]).
pub fn merge_store(stored: &RowFields, written: &RowFields) -> (r: RowFields)
    ensures
        r@ == row_after_store(stored@, written@),
        // The written content, tags, source and update time replace the
        // stored ones; the access count stays.
        r.content@ == written.content@,
        r.tags_json@ == written.tags_json@,
        r.source@ == written.source@,
        r.updated_at@ == written.updated_at@,
        r.access_count == stored.access_count,
        // The priority is the larger of the two.
        r.priority >= stored.priority && r.priority >= written.priority,
        r.priority == stored.priority || r.priority == written.priority,
        // The tier is the higher of the two.
        r.tier.rank() >= stored.tier.rank() && r.tier.rank() >= written.tier.rank(),
        r.tier == stored.tier || r.tier == written.tier,
        // No expiry when either side is long-term; otherwise the written
        // expiry, or the stored one when the write has none.
        (stored.tier == Tier::Long || written.tier == Tier::Long) ==> r.expires_at is None,
        (stored.tier != Tier::Long && written.tier != Tier::Long && written.expires_at is Some)
            ==> r@.expires_at == written@.expires_at,
        (stored.tier != Tier::Long && written.tier != Tier::Long && written.expires_at is None)
            ==> r@.expires_at == stored@.expires_at,
{
    RowFields {
        tier: tier_after_write(stored.tier, written.tier),
        content: written.content.clone(),
        tags_json: written.tags_json.clone(),
        priority: if stored.priority >= written.priority {
            stored.priority
        } else {
            written.priority
        },
        source: written.source.clone(),
        access_count: stored.access_count,
        updated_at: written.updated_at.clone(),
        expires_at: expiry_after_write(stored, written),
    }
}

/// Sync `written` into the row `stored` that holds its title and namespace
/// (see [`row_after_sync`]).
pub fn merge_sync(stored: &RowFields, written: &RowFields) -> (r: RowFields)
    ensures
        r@ == row_after_sync(stored@, written@),
        // Content, tags, source and update time all come from the written
        // memory when its update time sorts after the stored one, and all
        // from the stored memory otherwise.
        lex_lt(stored.updated_at@, written.updated_at@) ==> (r.content@ == written.content@
            && r.tags_json@ == written.tags_json@ && r.source@ == written.source@
            && r.updated_at@ == written.updated_at@),
        !lex_lt(stored.updated_at@, written.updated_at@) ==> (r.content@ == stored.content@
            && r.tags_json@ == stored.tags_json@ && r.source@ == stored.source@
            && r.updated_at@ == stored.updated_at@),
        // Priority and access count are the larger ones.
        r.priority >= stored.priority && r.priority >= written.priority,
        r.priority == stored.priority || r.priority == written.priority,
        r.access_count >= stored.access_count && r.access_count >= written.access_count,
        r.access_count == stored.access_count || r.access_count == written.access_count,
        // The tier is the higher of the two.
        r.tier.rank() >= stored.tier.rank() && r.tier.rank() >= written.tier.rank(),
        r.tier == stored.tier || r.tier == written.tier,
        // No expiry when either side is long-term; otherwise the written
        // expiry, or the stored one when the write has none.
        (stored.tier == Tier::Long || written.tier == Tier::Long) ==> r.expires_at is None,
        (stored.tier != Tier::Long && written.tier != Tier::Long && written.expires_at is Some)
            ==> r@.expires_at == written@.expires_at,
        (stored.tier != Tier::Long && written.tier != Tier::Long && written.expires_at is None)
            ==> r@.expires_at == stored@.expires_at,
{
    let newer = lex_less(&chars_of(stored.updated_at.as_str()), &chars_of(written.updated_at.as_str()));
    let side = if newer {
        written
    } else {
        stored
    };
    RowFields {
        tier: tier_after_write(stored.tier, written.tier),
        content: side.content.clone(),
        tags_json: side.tags_json.clone(),
        priority: if stored.priority >= written.priority {
            stored.priority
        } else {
            written.priority
        },
        source: side.source.clone(),
        access_count: if stored.access_count >= written.access_count {
            stored.access_count
        } else {
            written.access_count
        },
        updated_at: side.updated_at.clone(),
        expires_at: expiry_after_write(stored, written),
    }
}

/// The tier after a write is the higher of the stored and the written tier.
pub proof fn lemma_merged_tier_is_higher(stored: Tier, written: Tier)
    ensures
        merged_tier(stored, written).rank() == if stored.rank() >= written.rank() {
            stored.rank()
        } else {
            written.rank()
        },
{
}

/// Neither a store nor a sync lowers the tier or the priority of the stored
/// memory or of the written one, and a sync keeps the larger access count;
/// a long-term memory never carries an expiry after either.
pub proof fn lemma_writes_never_downgrade(stored: RowView, written: RowView)
    ensures
        row_after_store(stored, written).tier.rank() >= stored.tier.rank(),
        row_after_store(stored, written).tier.rank() >= written.tier.rank(),
        row_after_store(stored, written).priority >= stored.priority,
        row_after_store(stored, written).priority >= written.priority,
        row_after_sync(stored, written).tier.rank() >= stored.tier.rank(),
        row_after_sync(stored, written).tier.rank() >= written.tier.rank(),
        row_after_sync(stored, written).priority >= stored.priority,
        row_after_sync(stored, written).priority >= written.priority,
        row_after_sync(stored, written).access_count >= stored.access_count,
        row_after_sync(stored, written).access_count >= written.access_count,
        row_after_store(stored, written).tier == Tier::Long ==> row_after_store(
            stored,
            written,
        ).expires_at is None,
        row_after_sync(stored, written).tier == Tier::Long ==> row_after_sync(
            stored,
            written,
        ).expires_at is None,
{
}

/// Storing the same memory twice leaves the row as storing it once.
pub proof fn lemma_store_idempotent(stored: RowView, written: RowView)
    ensures
        row_after_store(row_after_store(stored, written), written) == row_after_store(
            stored,
            written,
        ),
{
}

/// Syncing the same memory twice leaves the row as syncing it once.
pub proof fn lemma_sync_idempotent(stored: RowView, written: RowView)
    ensures
        row_after_sync(row_after_sync(stored, written), written) == row_after_sync(
            stored,
            written,
        ),
{
    // The first sync leaves an update time that the written one does not
    // sort after, so the second sync takes nothing new from it.
    lemma_lex_irreflexive(written.updated_at);
    assert(!is_newer(row_after_sync(stored, written), written));
}

/// A sync takes content, tags, source and update time together from one
/// side: from the written memory exactly when its update time sorts after
/// the stored one, otherwise (equal or earlier times) from the stored
/// memory; of two different update times, at most one is newer.
pub proof fn lemma_sync_newest_wins(stored: RowView, written: RowView)
    ensures
        lex_lt(stored.updated_at, written.updated_at) ==> {
            let r = row_after_sync(stored, written);
            &&& r.content == written.content
            &&& r.tags_json == written.tags_json
            &&& r.source == written.source
            &&& r.updated_at == written.updated_at
        },
        !lex_lt(stored.updated_at, written.updated_at) ==> {
            let r = row_after_sync(stored, written);
            &&& r.content == stored.content
            &&& r.tags_json == stored.tags_json
            &&& r.source == stored.source
            &&& r.updated_at == stored.updated_at
        },
        stored.updated_at == written.updated_at ==> row_after_sync(stored, written).tags_json
            == stored.tags_json,
        lex_lt(stored.updated_at, written.updated_at) ==> !lex_lt(
            written.updated_at,
            stored.updated_at,
        ),
{
    lemma_lex_irreflexive(stored.updated_at);
    if lex_lt(stored.updated_at, written.updated_at) {
        lemma_lex_asymmetric(stored.updated_at, written.updated_at);
    }
}

/// A store takes content, tags, source and update time from the written
/// memory and keeps the stored access count; priority and tier are the
/// larger of the two sides, and the expiry is none when either side is
/// long-term, else the written one, else the stored one.
pub proof fn lemma_store_rules(stored: RowView, written: RowView)
    ensures
        ({
            let r = row_after_store(stored, written);
            &&& r.content == written.content
            &&& r.tags_json == written.tags_json
            &&& r.source == written.source
            &&& r.updated_at == written.updated_at
            &&& r.access_count == stored.access_count
            &&& (r.priority == stored.priority || r.priority == written.priority)
            &&& r.priority >= stored.priority && r.priority >= written.priority
            &&& (r.tier == stored.tier || r.tier == written.tier)
            &&& (stored.tier == Tier::Long || written.tier == Tier::Long ==> r.expires_at is None)
            &&& (stored.tier != Tier::Long && written.tier != Tier::Long ==> r.expires_at == (
            match written.expires_at {
                Some(e) => Some(e),
                None => stored.expires_at,
            }))
        }),
{
}

} // verus!
