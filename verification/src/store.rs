//! The decisions of the storage layer: how tags are encoded and filtered,
//! how stored values are decoded, which schema migrations are due, which
//! rows a bulk deletion targets, how a partial update merges with the stored
//! memory, which semantic candidates pass the recall filters, and how several
//! memories are merged into one.
//!
//! The SQL statements themselves run outside this module; the functions here
//! take the values read from the database and return what to write.

use vstd::prelude::*;

use crate::fts::sanitized_query;
use crate::fts::sanitize_fts5_query;
use crate::models::{tier_of_name, Tier};
use crate::text::{
    chars_of, extend_chars, extend_str, join_with, lemma_lex_asymmetric, lemma_lex_irreflexive, lemma_lex_total, lemma_lex_transitive, lex_less, lex_lt, split_chars, split_pieces, string_from_chars, trim_chars, trim_ws,
};
use crate::validate::{strip_invisible, without_invisible};

verus! {

// ---------------------------------------------------------------------------
// JSON encoding of tag lists
// ---------------------------------------------------------------------------
/// `serde_json::Error`, the error of serde_json's parsing and serializing,
/// carried through as an opaque value.
#[verifier::external_type_specification]
#[verifier::external_body]
pub struct ExJsonError(serde_json::Error);

/// The JSON text that `serde_json::to_string` produces for an array of
/// strings.
pub uninterp spec fn json_of_strings(items: Seq<Seq<char>>) -> Seq<char>;

/// The strings of a JSON text holding an array of strings, as
/// `serde_json::from_str::<Vec<String>>` reads them; `None` when the text is
/// not such an array.
pub uninterp spec fn strings_of_json(text: Seq<char>) -> Option<Seq<Seq<char>>>;

/// `serde_json::to_string` on a vector of strings.  The result is the JSON
/// text named by [`json_of_strings`].  It is always `Ok`: in serde_json's
/// source, `to_string` serializes into a `Vec<u8>` writer, whose writes
/// cannot fail, and serializing a sequence of strings raises no error of its
/// own.  Parsing the text back with `serde_json::from_str::<Vec<String>>`
/// gives the same strings: the serializer writes each string between quotes
/// with every quote, backslash and control character escaped, and the parser
/// undoes exactly those escapes.
#[verifier::external_body]
fn json_encode_strings(items: &Vec<String>) -> (r: Result<String, serde_json::Error>)
    ensures
        r is Ok,
        r matches Ok(s) ==> s@ == json_of_strings(items.deep_view()),
        r matches Ok(s) ==> strings_of_json(s@) == Some(items.deep_view()),
{
    serde_json::to_string(items)
}

/// `serde_json::from_str::<Vec<String>>`: the strings named by
/// [`strings_of_json`], or an error exactly when that name gives `None`.
#[verifier::external_body]
fn json_decode_strings(text: &str) -> (r: Result<Vec<String>, serde_json::Error>)
    ensures
        r matches Ok(v) ==> strings_of_json(text@) == Some(v.deep_view()),
        r is Err ==> strings_of_json(text@) is None,
{
    serde_json::from_str::<Vec<String>>(text)
}

/// JSON array text of a tag list, as stored in the `tags` column; reading
/// the column back gives the same tags.
pub fn tags_json(tags: &Vec<String>) -> (r: String)
    ensures
        r@ == json_of_strings(tags.deep_view()),
        strings_of_json(r@) == Some(tags.deep_view()),
{
    match json_encode_strings(tags) {
        Ok(s) => s,
        Err(_) => String::new(),
    }
}

/// The tags read from a `tags` column, given what parsing it as a JSON
/// array of strings gave: the strings, or no tags when it was not such an
/// array.
pub fn tags_or_none(parsed: Option<Vec<String>>) -> (r: Vec<String>)
    ensures
        r.deep_view() == (match parsed {
            Some(v) => v.deep_view(),
            None => Seq::<Seq<char>>::empty(),
        }),
{
    match parsed {
        Some(v) => v,
        None => {
            let v: Vec<String> = Vec::new();
            assert(v.deep_view() =~= Seq::<Seq<char>>::empty());
            v
        },
    }
}

/// The tags stored in a `tags` column; an unreadable column counts as no
/// tags.
pub fn decode_tags(text: &str) -> (r: Vec<String>)
    ensures
        r.deep_view() == (match strings_of_json(text@) {
            Some(v) => v,
            None => Seq::<Seq<char>>::empty(),
        }),
{
    let parsed = match json_decode_strings(text) {
        Ok(v) => Some(v),
        Err(_) => None,
    };
    tags_or_none(parsed)
}

/// The tier stored in a `tier` column; an unknown name counts as `mid`.
pub fn tier_from_column(text: &str) -> (r: Tier)
    ensures
        r == (match tier_of_name(text@) {
            Some(t) => t,
            None => Tier::Mid,
        }),
{
    match Tier::from_str(text) {
        Some(t) => t,
        None => Tier::Mid,
    }
}

/// The non-blank pieces of a list, each trimmed.
pub open spec fn nonblank_trimmed(ps: Seq<Seq<char>>) -> Seq<Seq<char>>
    decreases ps.len(),
{
    if ps.len() == 0 {
        Seq::<Seq<char>>::empty()
    } else {
        let r = nonblank_trimmed(ps.drop_last());
        let t = trim_ws(ps.last());
        if t.len() > 0 {
            r.push(t)
        } else {
            r
        }
    }
}

/// The tags of a filter are exactly its non-blank pieces, trimmed: none is
/// empty, each is the trimmed form of some piece, every piece that is not
/// blank after trimming gives one, and their order is that of the pieces.
pub proof fn lemma_nonblank_trimmed_rules(ps: Seq<Seq<char>>)
    ensures
        nonblank_trimmed(ps).len() <= ps.len(),
        forall|i: int|
            0 <= i < nonblank_trimmed(ps).len() ==> (#[trigger] nonblank_trimmed(ps)[i]).len() > 0,
        forall|i: int|
            0 <= i < nonblank_trimmed(ps).len() ==> exists|j: int|
                0 <= j < ps.len() && #[trigger] nonblank_trimmed(ps)[i] == trim_ws(ps[j]),
        forall|j: int|
            0 <= j < ps.len() && trim_ws(#[trigger] ps[j]).len() > 0 ==> nonblank_trimmed(
                ps,
            ).contains(trim_ws(ps[j])),
    decreases ps.len(),
{
    if ps.len() > 0 {
        let q = ps.drop_last();
        lemma_nonblank_trimmed_rules(q);
        let r = nonblank_trimmed(q);
        let t = trim_ws(ps.last());
        let n = nonblank_trimmed(ps);
        assert forall|i: int| 0 <= i < n.len() implies exists|j: int|
            0 <= j < ps.len() && #[trigger] n[i] == trim_ws(ps[j]) by {
            if i < r.len() {
                assert(n[i] == r[i]);
                let j = choose|j: int| 0 <= j < q.len() && r[i] == trim_ws(q[j]);
                assert(q[j] == ps[j]);
            } else {
                assert(n[i] == trim_ws(ps[ps.len() - 1]));
            }
        }
        assert forall|i: int| 0 <= i < n.len() implies (#[trigger] n[i]).len() > 0 by {
            if i < r.len() {
                assert(n[i] == r[i]);
            }
        }
        assert forall|j: int|
            0 <= j < ps.len() && trim_ws(#[trigger] ps[j]).len() > 0 implies n.contains(
                trim_ws(ps[j]),
            ) by {
            if j < q.len() {
                assert(q[j] == ps[j]);
                assert(r.contains(trim_ws(q[j])));
                let k = choose|k: int| 0 <= k < r.len() && r[k] == trim_ws(q[j]);
                assert(n[k] == r[k]);
            } else {
                assert(ps[j] == ps.last());
                assert(n[n.len() - 1] == t);
            }
        }
    }
}

/// The tags named by a comma-separated filter such as `"rust, python"`:
/// the pieces between commas, trimmed, blank ones left out.
pub open spec fn filter_tags(filter: Seq<char>) -> Seq<Seq<char>> {
    nonblank_trimmed(split_pieces(filter, ','))
}

/// The tags of a comma-separated filter, as strings.
pub fn parse_tag_filter(filter: &str) -> (r: Vec<String>)
    ensures
        r.deep_view() == filter_tags(filter@),
{
    let cs = chars_of(filter);
    let pieces = split_chars(&cs, ',');
    let ghost ps = split_pieces(cs@, ',');
    let mut out: Vec<String> = Vec::new();
    for i in 0..pieces.len()
        invariant
            pieces@.len() == ps.len(),
            forall|k: int| 0 <= k < pieces@.len() ==> #[trigger] pieces@[k]@ == ps[k],
            out.deep_view() == nonblank_trimmed(ps.take(i as int)),
    {
        assert(ps.take(i + 1).drop_last() == ps.take(i as int));
        assert(pieces@[i as int]@ == ps[i as int]);
        let t = trim_chars(&pieces[i]);
        if t.len() > 0 {
            let ghost before = out.deep_view();
            out.push(string_from_chars(&t));
            assert(out.deep_view() =~= before.push(t@));
        }
    }
    assert(ps.take(pieces.len() as int) == ps);
    out
}

/// Convert a comma-separated tags string to a JSON array for SQL matching,
/// so that `"rust,python"` matches memories with either tag.
pub fn tags_to_json_array(tags: Option<&str>) -> (r: Option<String>)
    ensures
        match tags {
            Some(t) => r matches Some(j) && j@ == json_of_strings(filter_tags(t@)),
            None => r is None,
        },
{
    match tags {
        Some(t) => {
            let list = parse_tag_filter(t);
            Some(tags_json(&list))
        },
        None => None,
    }
}

// ---------------------------------------------------------------------------
// Schema migration
// ---------------------------------------------------------------------------
/// Version of the database schema that this code writes.
pub const CURRENT_SCHEMA_VERSION: i64 = 3;

/// What a migration of the `memories` table has to do.
#[derive(Debug, Clone, Copy, PartialEq, Eq)]
pub struct MigrationPlan {
    /// The schema is current: nothing to do.
    pub up_to_date: bool,
    /// Add the `confidence` column.
    pub add_confidence: bool,
    /// Add the `source` column.
    pub add_source: bool,
    /// Add the `embedding` column.
    pub add_embedding: bool,
}

/// `columns` holds a column called `name`.
pub open spec fn has_column(columns: Seq<Seq<char>>, name: Seq<char>) -> bool {
    exists|i: int| 0 <= i < columns.len() && columns[i] == name
}

fn has_column_exec(columns: &Vec<String>, name: &str) -> (r: bool)
    ensures
        r == has_column(columns.deep_view(), name@),
{
    let n = chars_of(name);
    for i in 0..columns.len()
        invariant
            n@ == name@,
            forall|k: int| 0 <= k < i ==> columns.deep_view()[k] != name@,
    {
        let c = chars_of(columns[i].as_str());
        if vec_chars_eq(&c, &n) {
            assert(columns.deep_view()[i as int] == name@);
            return true;
        }
    }
    false
}

fn vec_chars_eq(a: &Vec<char>, b: &Vec<char>) -> (r: bool)
    ensures
        r == (a@ == b@),
{
    if a.len() != b.len() {
        return false;
    }
    for i in 0..a.len()
        invariant
            a.len() == b.len(),
            forall|j: int| 0 <= j < i ==> a@[j] == b@[j],
    {
        if a[i] != b[i] {
            assert(a@[i as int] != b@[i as int]);
            return false;
        }
    }
    assert(a@ =~= b@);
    true
}

/// Decide the migration of a database at schema `version` whose
/// `memories` table has the given `columns`: versions before 2 lack the
/// `confidence` and `source` columns, versions before 3 the `embedding`
/// column; a column that is already there is not added again.
pub fn plan_migration(version: i64, columns: &Vec<String>) -> (r: MigrationPlan)
    ensures
        r.up_to_date == (version >= CURRENT_SCHEMA_VERSION),
        r.add_confidence == (version < 2 && !has_column(columns.deep_view(), "confidence"@)),
        r.add_source == (version < 2 && !has_column(columns.deep_view(), "source"@)),
        r.add_embedding == (version < 3 && !has_column(columns.deep_view(), "embedding"@)),
{
    if version >= CURRENT_SCHEMA_VERSION {
        return MigrationPlan {
            up_to_date: true,
            add_confidence: false,
            add_source: false,
            add_embedding: false,
        };
    }
    let add_confidence = version < 2 && !has_column_exec(columns, "confidence");
    let add_source = version < 2 && !has_column_exec(columns, "source");
    let add_embedding = !has_column_exec(columns, "embedding");
    MigrationPlan { up_to_date: false, add_confidence, add_source, add_embedding }
}

// ---------------------------------------------------------------------------
// Bulk deletion and query limits
// ---------------------------------------------------------------------------
/// Errors decided by the storage layer.
#[derive(Debug, Clone, PartialEq, Eq)]
pub enum StoreError {
    /// A bulk deletion named neither a namespace, a pattern nor a tier.
    NoForgetFilter,
    /// A link names a source memory that does not exist.
    SourceNotFound(String),
    /// A link names a target memory that does not exist.
    TargetNotFound(String),
    /// A memory to merge does not exist.
    MemoryNotFound(String),
}

/// `prefix` followed by `id`, as a string.
fn prefixed(prefix: &str, id: &String) -> (r: String)
    ensures
        r@ == prefix@ + id@,
{
    let mut v = chars_of(prefix);
    extend_str(&mut v, id.as_str());
    string_from_chars(&v)
}

impl StoreError {
    /// The error message.
    pub fn message(&self) -> (r: String)
        ensures
            r@ == (match self {
                StoreError::NoForgetFilter => "at least one of namespace, pattern, or tier is required"@,
                StoreError::SourceNotFound(id) => "source memory not found: "@ + id@,
                StoreError::TargetNotFound(id) => "target memory not found: "@ + id@,
                StoreError::MemoryNotFound(id) => "memory not found: "@ + id@,
            }),
    {
        match self {
            StoreError::NoForgetFilter => String::from_str(
                "at least one of namespace, pattern, or tier is required",
            ),
            StoreError::SourceNotFound(id) => prefixed("source memory not found: ", id),
            StoreError::TargetNotFound(id) => prefixed("target memory not found: ", id),
            StoreError::MemoryNotFound(id) => prefixed("memory not found: ", id),
        }
    }
}

/// Decide whether a link between `source_id` and `target_id` may be
/// created, given whether each memory exists: the missing source is
/// reported first, then the missing target.
pub fn check_link_endpoints(
    source_id: &str,
    target_id: &str,
    source_exists: bool,
    target_exists: bool,
) -> (r: Result<(), StoreError>)
    ensures
        r is Ok <==> (source_exists && target_exists),
        !source_exists ==> (r matches Err(StoreError::SourceNotFound(id)) && id@ == source_id@),
        (source_exists && !target_exists) ==> (r matches Err(StoreError::TargetNotFound(id)) && id@
            == target_id@),
{
    if !source_exists {
        Err(StoreError::SourceNotFound(String::from_str(source_id)))
    } else if !target_exists {
        Err(StoreError::TargetNotFound(String::from_str(target_id)))
    } else {
        Ok(())
    }
}

/// Decide whether the memories `ids` may be merged, given for each whether
/// it exists (`found[k]` for `ids[k]`): the first missing one is reported.
pub fn check_all_found(ids: &Vec<String>, found: &Vec<bool>) -> (r: Result<(), StoreError>)
    requires
        found@.len() == ids@.len(),
    ensures
        r is Ok <==> forall|k: int| 0 <= k < found@.len() ==> found@[k],
        r matches Err(e) ==> exists|k: int|
            0 <= k < found@.len() && !found@[k] && (forall|j: int| 0 <= j < k ==> found@[j]) && (
            e matches StoreError::MemoryNotFound(id) && id@ == ids@[k]@),
{
    for k in 0..found.len()
        invariant
            found@.len() == ids@.len(),
            forall|j: int| 0 <= j < k ==> found@[j],
    {
        if !found[k] {
            return Err(StoreError::MemoryNotFound(ids[k].clone()));
        }
    }
    Ok(())
}

/// Which rows a bulk deletion removes.
#[derive(Debug, Clone, PartialEq, Eq)]
pub enum ForgetPlan {
    /// Rows matching the full-text query (OR semantics), within the
    /// namespace and tier filters.
    Matching { fts_query: String },
    /// Rows within the namespace and tier filters.
    Filtered,
}

/// Decide a bulk deletion: a pattern selects by full-text match (its
/// sanitized OR query), otherwise the namespace and tier filters alone
/// select; with no filter at all the deletion is refused.
pub fn plan_forget(namespace: Option<&str>, pattern: Option<&str>, tier: Option<Tier>) -> (r:
    Result<ForgetPlan, StoreError>)
    ensures
        (namespace is None && pattern is None && tier is None) <==> r == Err::<
            ForgetPlan,
            StoreError,
        >(StoreError::NoForgetFilter),
        pattern matches Some(p) ==> r matches Ok(ForgetPlan::Matching { fts_query }) && fts_query@
            == sanitized_query(p@, true),
        (pattern is None && (namespace is Some || tier is Some)) ==> r == Ok::<
            ForgetPlan,
            StoreError,
        >(ForgetPlan::Filtered),
{
    match pattern {
        Some(p) => Ok(ForgetPlan::Matching { fts_query: sanitize_fts5_query(p, true) }),
        None => {
            if namespace.is_none() && tier.is_none() {
                Err(StoreError::NoForgetFilter)
            } else {
                Ok(ForgetPlan::Filtered)
            }
        },
    }
}

/// Largest number of rows a listing, search or recall returns.
pub const MAX_RESULT_LIMIT: usize = 10000;

/// The requested result limit, capped at [`MAX_RESULT_LIMIT`].
pub fn capped_limit(limit: usize) -> (r: usize)
    ensures
        r == (if limit <= MAX_RESULT_LIMIT {
            limit
        } else {
            MAX_RESULT_LIMIT
        }),
{
    if limit <= MAX_RESULT_LIMIT {
        limit
    } else {
        MAX_RESULT_LIMIT
    }
}

/// Number of full-text candidates fetched for a (capped) limit: three
/// times the limit, and at least 30, so that re-scoring can reorder them.
pub fn candidate_limit(limit: usize) -> (r: usize)
    requires
        limit <= MAX_RESULT_LIMIT,
    ensures
        r == (if 3 * limit >= 30 {
            3 * limit
        } else {
            30
        }),
{
    if 3 * limit >= 30 {
        3 * limit
    } else {
        30
    }
}

/// Number of nearest-neighbour candidates fetched for a (capped) limit:
/// five times the limit, and at least 50.
pub fn neighbour_limit(limit: usize) -> (r: usize)
    requires
        limit <= MAX_RESULT_LIMIT,
    ensures
        r == (if 5 * limit >= 50 {
            5 * limit
        } else {
            50
        }),
{
    if 5 * limit >= 50 {
        5 * limit
    } else {
        50
    }
}

// ---------------------------------------------------------------------------
// Partial update
// ---------------------------------------------------------------------------
/// The stored fields of a memory that a partial update can change (its
/// confidence excepted, which the caller merges itself).
#[derive(Debug, Clone)]
pub struct MemoryFields {
    pub title: String,
    pub content: String,
    pub tier: Tier,
    pub namespace: String,
    pub tags: Vec<String>,
    pub priority: i32,
    pub expires_at: Option<String>,
}

/// The outcome of merging a partial update into a stored memory.
#[derive(Debug, Clone)]
pub struct UpdatePlan {
    /// The fields to store.
    pub fields: MemoryFields,
    /// The title or the content changes, so the stored embedding is stale.
    pub content_changed: bool,
}

/// The view of an optional string.
pub open spec fn opt_str_view(s: Option<String>) -> Option<Seq<char>> {
    match s {
        Some(x) => Some(x@),
        None => None,
    }
}

/// The expiry after an update: an empty string or `null` clears it, another
/// value replaces it, no value keeps the stored one.
pub open spec fn updated_expiry(given: Option<Seq<char>>, stored: Option<Seq<char>>) -> Option<
    Seq<char>,
> {
    match given {
        Some(e) => if e == Seq::<char>::empty() || e == "null"@ {
            None
        } else {
            Some(e)
        },
        None => stored,
    }
}

fn clone_string(s: &String) -> (r: String)
    ensures
        r@ == s@,
{
    String::from_str(s.as_str())
}

fn clone_strings(v: &Vec<String>) -> (r: Vec<String>)
    ensures
        r.deep_view() == v.deep_view(),
{
    let mut r: Vec<String> = Vec::new();
    for i in 0..v.len()
        invariant
            r.deep_view() == v.deep_view().take(i as int),
    {
        let ghost before = r.deep_view();
        r.push(clone_string(&v[i]));
        assert(r.deep_view() =~= before.push(v[i as int]@));
        assert(v.deep_view().take(i + 1) =~= v.deep_view().take(i as int).push(v[i as int]@));
    }
    assert(v.deep_view().take(v.len() as int) =~= v.deep_view());
    r
}

fn str_eq_string(a: &String, b: &String) -> (r: bool)
    ensures
        r == (a@ == b@),
{
    let x = chars_of(a.as_str());
    let y = chars_of(b.as_str());
    vec_chars_eq(&x, &y)
}

/// Merge a partial update into the stored fields of a memory: each given
/// field replaces the stored one (title and content with their invisible
/// characters removed), the others stay; the expiry follows
/// [`updated_expiry`].
pub fn plan_update(
    existing: &MemoryFields,
    title: Option<&str>,
    content: Option<&str>,
    tier: Option<Tier>,
    namespace: Option<&str>,
    tags: Option<&Vec<String>>,
    priority: Option<i32>,
    expires_at: Option<&str>,
) -> (r: UpdatePlan)
    ensures
        r.fields.title@ == (match title {
            Some(t) => without_invisible(t@),
            None => existing.title@,
        }),
        r.fields.content@ == (match content {
            Some(c) => without_invisible(c@),
            None => existing.content@,
        }),
        r.fields.tier == (match tier {
            Some(t) => t,
            None => existing.tier,
        }),
        r.fields.namespace@ == (match namespace {
            Some(n) => n@,
            None => existing.namespace@,
        }),
        r.fields.tags.deep_view() == (match tags {
            Some(t) => t.deep_view(),
            None => existing.tags.deep_view(),
        }),
        r.fields.priority == (match priority {
            Some(p) => p,
            None => existing.priority,
        }),
        opt_str_view(r.fields.expires_at) == updated_expiry(
            match expires_at {
                Some(e) => Some(e@),
                None => None,
            },
            opt_str_view(existing.expires_at),
        ),
        r.content_changed == ((title is Some && r.fields.title@ != existing.title@) || (
        content is Some && r.fields.content@ != existing.content@)),
        // An empty or `null` expiry clears it, another value replaces it,
        // none keeps the stored one.
        (expires_at is Some && (expires_at->0@.len() == 0 || expires_at->0@ == "null"@))
            ==> r.fields.expires_at is None,
        (expires_at is Some && expires_at->0@.len() > 0 && expires_at->0@ != "null"@) ==> (
        r.fields.expires_at is Some && r.fields.expires_at->0@ == expires_at->0@),
        expires_at is None ==> opt_str_view(r.fields.expires_at) == opt_str_view(
            existing.expires_at,
        ),
{
    let new_title = match title {
        Some(t) => strip_invisible(t),
        None => clone_string(&existing.title),
    };
    let new_content = match content {
        Some(c) => strip_invisible(c),
        None => clone_string(&existing.content),
    };
    let content_changed = (title.is_some() && !str_eq_string(&new_title, &existing.title)) || (
    content.is_some() && !str_eq_string(&new_content, &existing.content));
    let new_tier = match tier {
        Some(t) => t,
        None => existing.tier,
    };
    let new_namespace = match namespace {
        Some(n) => String::from_str(n),
        None => clone_string(&existing.namespace),
    };
    let new_tags = match tags {
        Some(t) => clone_strings(t),
        None => clone_strings(&existing.tags),
    };
    let new_priority = match priority {
        Some(p) => p,
        None => existing.priority,
    };
    let new_expires = match expires_at {
        Some(e) => {
            let ec = chars_of(e);
            let null_word = chars_of("null");
            if ec.len() == 0 || vec_chars_eq(&ec, &null_word) {
                assert(ec.len() == 0 ==> e@ =~= Seq::<char>::empty());
                None
            } else {
                Some(String::from_str(e))
            }
        },
        None => match &existing.expires_at {
            Some(x) => Some(clone_string(x)),
            None => None,
        },
    };
    UpdatePlan {
        fields: MemoryFields {
            title: new_title,
            content: new_content,
            tier: new_tier,
            namespace: new_namespace,
            tags: new_tags,
            priority: new_priority,
            expires_at: new_expires,
        },
        content_changed,
    }
}

// ---------------------------------------------------------------------------
// Semantic candidates in hybrid recall
// ---------------------------------------------------------------------------
/// The pieces of a comma-separated filter, each trimmed, blank ones kept
/// (the reading that hybrid recall gives a tag filter for its
/// nearest-neighbour candidates).
pub open spec fn trimmed_pieces(ps: Seq<Seq<char>>) -> Seq<Seq<char>>
    decreases ps.len(),
{
    if ps.len() == 0 {
        Seq::<Seq<char>>::empty()
    } else {
        trimmed_pieces(ps.drop_last()).push(trim_ws(ps.last()))
    }
}

/// The pieces of a filter, trimmed, are the trimmed comma-separated parts:
/// same number, each one the trimmed part at the same place.
pub proof fn lemma_trimmed_pieces_at(ps: Seq<Seq<char>>)
    ensures
        trimmed_pieces(ps).len() == ps.len(),
        forall|j: int| 0 <= j < ps.len() ==> trimmed_pieces(ps)[j] == trim_ws(#[trigger] ps[j]),
    decreases ps.len(),
{
    if ps.len() > 0 {
        let q = ps.drop_last();
        lemma_trimmed_pieces_at(q);
        assert forall|j: int| 0 <= j < ps.len() implies trimmed_pieces(ps)[j] == trim_ws(
            #[trigger] ps[j],
        ) by {
            if j < q.len() {
                assert(ps[j] == q[j]);
            }
        }
    }
}

/// The filters of a recall query.
#[derive(Debug, Clone)]
pub struct RecallFilters {
    pub namespace: Option<String>,
    pub tags_filter: Option<String>,
    pub since: Option<String>,
    pub until: Option<String>,
}

/// A nearest-neighbour candidate passes the recall filters: same namespace
/// when one is given, not expired at `now` (its expiry is after `now`), one
/// of its tags among the filter's pieces when a tag filter is given, and
/// created within `since` and `until` when given.  Timestamps compare as
/// strings.
pub open spec fn passes_recall_filters(
    namespace: Seq<char>,
    expires_at: Option<Seq<char>>,
    tags: Seq<Seq<char>>,
    created_at: Seq<char>,
    filters: RecallFilters,
    now: Seq<char>,
) -> bool {
    &&& (filters.namespace matches Some(ns) ==> namespace == ns@)
    &&& (expires_at matches Some(e) ==> lex_lt(now, e))
    &&& (filters.tags_filter matches Some(tf) ==> exists|i: int, j: int|
        0 <= i < tags.len() && 0 <= j < trimmed_pieces(split_pieces(tf@, ',')).len() && tags[i]
            == trimmed_pieces(split_pieces(tf@, ','))[j])
    &&& (filters.since matches Some(s) ==> !lex_lt(created_at, s@))
    &&& (filters.until matches Some(u) ==> !lex_lt(u@, created_at))
}

/// A candidate passes the recall filters only when it is in exactly the
/// requested namespace, unexpired at `now`, created within the requested
/// bounds, and holding a tag equal to one trimmed piece of the tag filter;
/// with no filter given, every unexpired candidate passes.
pub proof fn lemma_recall_filter_rules(
    namespace: Seq<char>,
    expires_at: Option<Seq<char>>,
    tags: Seq<Seq<char>>,
    created_at: Seq<char>,
    filters: RecallFilters,
    now: Seq<char>,
)
    ensures
        passes_recall_filters(namespace, expires_at, tags, created_at, filters, now) ==> {
            &&& (filters.namespace matches Some(ns) ==> namespace == ns@)
            &&& (expires_at matches Some(e) ==> lex_lt(now, e))
            &&& (filters.since matches Some(s) ==> !lex_lt(created_at, s@))
            &&& (filters.until matches Some(u) ==> !lex_lt(u@, created_at))
            &&& (filters.tags_filter matches Some(tf) ==> exists|i: int, j: int|
                0 <= i < tags.len() && 0 <= j < split_pieces(tf@, ',').len() && #[trigger] tags[i]
                    == trim_ws(#[trigger] split_pieces(tf@, ',')[j]))
        },
        (filters.namespace is None && filters.tags_filter is None && filters.since is None
            && filters.until is None && (expires_at matches Some(e) ==> lex_lt(now, e)))
            ==> passes_recall_filters(namespace, expires_at, tags, created_at, filters, now),
{
    if filters.tags_filter is Some {
        let ps = split_pieces(filters.tags_filter->0@, ',');
        let tp = trimmed_pieces(ps);
        lemma_trimmed_pieces_at(ps);
        if exists|i: int, j: int| 0 <= i < tags.len() && 0 <= j < tp.len() && tags[i] == tp[j] {
            let (i, j) = choose|i: int, j: int|
                0 <= i < tags.len() && 0 <= j < tp.len() && tags[i] == tp[j];
            assert(tags[i] == trim_ws(ps[j]));
        }
    }
}

fn any_tag_in(tags: &Vec<String>, wanted: &Vec<Vec<char>>) -> (r: bool)
    ensures
        r == exists|i: int, j: int|
            0 <= i < tags.len() && 0 <= j < wanted@.len() && tags.deep_view()[i]
                == wanted@[j]@,
{
    for i in 0..tags.len()
        invariant
            forall|a: int, j: int|
                0 <= a < i && 0 <= j < wanted@.len() ==> tags.deep_view()[a] != wanted@[j]@,
    {
        let t = chars_of(tags[i].as_str());
        for j in 0..wanted.len()
            invariant
                i < tags.len(),
                t@ == tags.deep_view()[i as int],
                forall|a: int, k: int|
                    0 <= a < i && 0 <= k < wanted@.len() ==> tags.deep_view()[a] != wanted@[k]@,
                forall|k: int| 0 <= k < j ==> tags.deep_view()[i as int] != wanted@[k]@,
        {
            if vec_chars_eq(&t, &wanted[j]) {
                assert(tags.deep_view()[i as int] == wanted@[j as int]@);
                return true;
            }
        }
    }
    false
}

fn opt_lt(a: &str, b: &str) -> (r: bool)
    ensures
        r == lex_lt(a@, b@),
{
    lex_less(&chars_of(a), &chars_of(b))
}

/// Whether a nearest-neighbour candidate of hybrid recall passes the recall
/// filters (see [`passes_recall_filters`]).
pub fn recall_candidate_passes(
    namespace: &str,
    expires_at: Option<&str>,
    tags: &Vec<String>,
    created_at: &str,
    filters: &RecallFilters,
    now: &str,
) -> (r: bool)
    ensures
        r == passes_recall_filters(
            namespace@,
            match expires_at {
                Some(e) => Some(e@),
                None => None,
            },
            tags.deep_view(),
            created_at@,
            *filters,
            now@,
        ),
        // Each filter that is given must hold for the candidate to pass.
        (r && filters.namespace is Some) ==> namespace@ == filters.namespace->0@,
        (r && expires_at is Some) ==> lex_lt(now@, expires_at->0@),
        (r && filters.since is Some) ==> !lex_lt(created_at@, filters.since->0@),
        (r && filters.until is Some) ==> !lex_lt(filters.until->0@, created_at@),
        (r && filters.tags_filter is Some) ==> exists|i: int, j: int|
            0 <= i < tags@.len() && 0 <= j < split_pieces(filters.tags_filter->0@, ',').len()
                && #[trigger] tags.deep_view()[i] == trim_ws(
                #[trigger] split_pieces(filters.tags_filter->0@, ',')[j],
            ),
        // With no filter given, an unexpired candidate passes.
        (filters.namespace is None && filters.tags_filter is None && filters.since is None
            && filters.until is None && (expires_at is None || lex_lt(now@, expires_at->0@)))
            ==> r,
        // A candidate in the requested namespace, unexpired, created within
        // the bounds and without a tag filter passes.
        (filters.tags_filter is None && (filters.namespace matches Some(ns) ==> namespace@ == ns@)
            && (expires_at matches Some(e) ==> lex_lt(now@, e@)) && (filters.since matches Some(
            s,
        ) ==> !lex_lt(created_at@, s@)) && (filters.until matches Some(u) ==> !lex_lt(
            u@,
            created_at@,
        ))) ==> r,
{
    proof {
        if filters.tags_filter is Some {
            let ps = split_pieces(filters.tags_filter->0@, ',');
            let tp = trimmed_pieces(ps);
            lemma_trimmed_pieces_at(ps);
            if exists|i: int, j: int|
                0 <= i < tags.len() && 0 <= j < tp.len() && tags.deep_view()[i] == tp[j] {
                let (i, j) = choose|i: int, j: int|
                    0 <= i < tags.len() && 0 <= j < tp.len() && tags.deep_view()[i] == tp[j];
                assert(tags.deep_view()[i] == trim_ws(ps[j]));
            }
        }
    }
    if let Some(ns) = &filters.namespace {
        if !vec_chars_eq(&chars_of(namespace), &chars_of(ns.as_str())) {
            return false;
        }
    }
    if let Some(e) = expires_at {
        if !opt_lt(now, e) {
            return false;
        }
    }
    if let Some(tf) = &filters.tags_filter {
        let cs = chars_of(tf.as_str());
        let pieces = split_chars(&cs, ',');
        let ghost ps = split_pieces(cs@, ',');
        let mut wanted: Vec<Vec<char>> = Vec::new();
        for i in 0..pieces.len()
            invariant
                pieces@.len() == ps.len(),
                forall|k: int| 0 <= k < pieces@.len() ==> #[trigger] pieces@[k]@ == ps[k],
                wanted@.len() == trimmed_pieces(ps.take(i as int)).len(),
                forall|k: int|
                    0 <= k < wanted@.len() ==> #[trigger] wanted@[k]@ == trimmed_pieces(
                        ps.take(i as int),
                    )[k],
        {
            assert(ps.take(i + 1).drop_last() == ps.take(i as int));
            assert(pieces@[i as int]@ == ps[i as int]);
            wanted.push(trim_chars(&pieces[i]));
        }
        assert(ps.take(pieces.len() as int) == ps);
        if !any_tag_in(tags, &wanted) {
            let ghost tp = trimmed_pieces(split_pieces(tf@, ','));
            assert forall|a: int, b: int|
                0 <= a < tags.len() && 0 <= b < tp.len() implies tags.deep_view()[a] != tp[b] by {
                assert(wanted@[b]@ == tp[b]);
            }
            return false;
        }
    }
    if let Some(s) = &filters.since {
        if opt_lt(created_at, s.as_str()) {
            return false;
        }
    }
    if let Some(u) = &filters.until {
        if opt_lt(u.as_str(), created_at) {
            return false;
        }
    }
    true
}

// ---------------------------------------------------------------------------
// Consolidation
// ---------------------------------------------------------------------------
/// What consolidation keeps of a memory that it merges.
#[derive(Debug, Clone)]
pub struct SourceMemory {
    pub id: String,
    pub priority: i32,
    pub tags: Vec<String>,
    pub access_count: i64,
}

/// The fields of the memory that replaces the merged ones.
#[derive(Debug, Clone)]
pub struct ConsolidationPlan {
    /// The largest priority of the merged memories, and at least 5.
    pub priority: i32,
    /// The merged memories' tags, sorted and without repeats, followed by a
    /// `consolidated-from:<id>` tag for each merged memory in order.
    pub tags: Vec<String>,
    /// The sum of the merged memories' access counts, saturating.
    pub access_count: i64,
    /// The summary followed by a footer naming the merged memories.
    pub content: String,
}

/// Largest priority among `ps`, starting from 5.
pub open spec fn max_priority(ps: Seq<SourceMemory>) -> i32
    decreases ps.len(),
{
    if ps.len() == 0 {
        5
    } else {
        let m = max_priority(ps.drop_last());
        if ps.last().priority > m {
            ps.last().priority
        } else {
            m
        }
    }
}

/// `a + b` clamped to the range of `i64` (what `i64::saturating_add` gives).
pub open spec fn sat_add(a: i64, b: i64) -> i64 {
    let t = a as int + b as int;
    if t > i64::MAX {
        i64::MAX
    } else if t < i64::MIN {
        i64::MIN
    } else {
        t as i64
    }
}

/// Saturating sum of the access counts of `ps`, added from the first.
pub open spec fn total_access(ps: Seq<SourceMemory>) -> i64
    decreases ps.len(),
{
    if ps.len() == 0 {
        0
    } else {
        sat_add(total_access(ps.drop_last()), ps.last().access_count)
    }
}

/// All tags of `ps`, in order, repeats included.
pub open spec fn all_tags(ps: Seq<SourceMemory>) -> Seq<Seq<char>>
    decreases ps.len(),
{
    if ps.len() == 0 {
        Seq::<Seq<char>>::empty()
    } else {
        all_tags(ps.drop_last()) + ps.last().tags.deep_view()
    }
}

/// The ids of `ps`, in order.
pub open spec fn source_ids(ps: Seq<SourceMemory>) -> Seq<Seq<char>>
    decreases ps.len(),
{
    if ps.len() == 0 {
        Seq::<Seq<char>>::empty()
    } else {
        source_ids(ps.drop_last()).push(ps.last().id@)
    }
}

/// The provenance tags of `ps`: `consolidated-from:<id>` for each, in order.
pub open spec fn provenance_tags(ps: Seq<SourceMemory>) -> Seq<Seq<char>>
    decreases ps.len(),
{
    if ps.len() == 0 {
        Seq::<Seq<char>>::empty()
    } else {
        provenance_tags(ps.drop_last()).push("consolidated-from:"@ + ps.last().id@)
    }
}

/// The consolidated content: the summary, a blank line, and
/// `[Consolidated from: <id>, <id>, ...]`.
pub open spec fn consolidated_content(summary: Seq<char>, ps: Seq<SourceMemory>) -> Seq<char> {
    summary + "\n\n[Consolidated from: "@ + join_with(source_ids(ps), ", "@) + "]"@
}

/// Every element of `s` comes strictly before the later ones.
pub open spec fn strictly_sorted(s: Seq<Seq<char>>) -> bool {
    forall|i: int, j: int| 0 <= i < j < s.len() ==> lex_lt(#[trigger] s[i], #[trigger] s[j])
}

/// `u` lists the distinct elements of `all` in increasing order.
pub open spec fn is_sorted_set_of(u: Seq<Seq<char>>, all: Seq<Seq<char>>) -> bool {
    &&& strictly_sorted(u)
    &&& forall|x: Seq<char>| #[trigger] u.contains(x) <==> all.contains(x)
}

/// The views of a list of character vectors.
pub open spec fn views(v: Seq<Vec<char>>) -> Seq<Seq<char>> {
    Seq::new(v.len(), |i: int| v[i]@)
}

proof fn lemma_push_contains(s: Seq<Seq<char>>, e: Seq<char>, y: Seq<char>)
    ensures
        s.push(e).contains(y) <==> (s.contains(y) || y == e),
{
    if s.push(e).contains(y) {
        let k = choose|k: int| 0 <= k < s.push(e).len() && s.push(e)[k] == y;
        if k < s.len() {
            assert(s[k] == y);
        }
    }
    if s.contains(y) {
        let k = choose|k: int| 0 <= k < s.len() && s[k] == y;
        assert(s.push(e)[k] == y);
    }
    if y == e {
        assert(s.push(e)[s.len() as int] == y);
    }
}

proof fn lemma_insert_contains(s: Seq<Seq<char>>, p: int, e: Seq<char>, y: Seq<char>)
    requires
        0 <= p <= s.len(),
    ensures
        s.insert(p, e).contains(y) <==> (s.contains(y) || y == e),
{
    let t = s.insert(p, e);
    if t.contains(y) {
        let k = choose|k: int| 0 <= k < t.len() && t[k] == y;
        if k < p {
            assert(s[k] == y);
        } else if k > p {
            assert(s[k - 1] == y);
        }
    }
    if s.contains(y) {
        let k = choose|k: int| 0 <= k < s.len() && s[k] == y;
        if k < p {
            assert(t[k] == y);
        } else {
            assert(t[k + 1] == y);
        }
    }
    if y == e {
        assert(t[p] == y);
    }
}

/// Adds `x` to a strictly sorted list unless it is already there.
fn insert_sorted_unique(acc: &mut Vec<Vec<char>>, x: Vec<char>)
    requires
        strictly_sorted(views(old(acc)@)),
    ensures
        strictly_sorted(views(final(acc)@)),
        forall|y: Seq<char>|
            #[trigger] views(final(acc)@).contains(y) <==> (views(old(acc)@).contains(y) || y
                == x@),
{
    let ghost s = views(acc@);
    let mut p: usize = 0;
    while p < acc.len() && lex_less(&acc[p], &x)
        invariant
            p <= acc.len(),
            s == views(acc@),
            forall|k: int| 0 <= k < p ==> lex_lt(#[trigger] s[k], x@),
        decreases acc.len() - p,
    {
        p = p + 1;
    }
    if p < acc.len() && vec_chars_eq(&acc[p], &x) {
        assert(s[p as int] == x@);
        return;
    }
    proof {
        if p < acc.len() {
            assert(s[p as int] != x@);
            lemma_lex_total(s[p as int], x@);
        }
    }
    acc.insert(p, x);
    proof {
        let t = views(acc@);
        assert(t =~= s.insert(p as int, x@));
        assert forall|i: int, j: int| 0 <= i < j < t.len() implies lex_lt(
            #[trigger] t[i],
            #[trigger] t[j],
        ) by {
            if j < p {
                assert(t[i] == s[i] && t[j] == s[j]);
            } else if j == p {
                assert(t[i] == s[i]);
            } else if i < p {
                assert(t[i] == s[i] && t[j] == s[j - 1]);
            } else if i == p {
                assert(t[j] == s[j - 1]);
                if j - 1 > p {
                    lemma_lex_transitive(x@, s[p as int], s[j - 1]);
                }
            } else {
                assert(t[i] == s[i - 1] && t[j] == s[j - 1]);
            }
        }
        assert forall|y: Seq<char>| #[trigger] t.contains(y) <==> (s.contains(y) || y == x@) by {
            lemma_insert_contains(s, p as int, x@, y);
        }
    }
}

/// Plan the merge of `sources` into one memory with the given summary.
pub fn plan_consolidation(sources: &Vec<SourceMemory>, summary: &str) -> (r: ConsolidationPlan)
    ensures
        r.priority == max_priority(sources@),
        r.access_count == total_access(sources@),
        r.content@ == consolidated_content(summary@, sources@),
        r.tags@.len() >= provenance_tags(sources@).len(),
        is_sorted_set_of(
            r.tags.deep_view().take(r.tags@.len() - provenance_tags(sources@).len()),
            all_tags(sources@),
        ),
        r.tags.deep_view().skip(r.tags@.len() - provenance_tags(sources@).len())
            == provenance_tags(sources@),
        // The priority is the largest of 5 and the merged priorities.
        r.priority >= 5,
        forall|k: int| 0 <= k < sources@.len() ==> r.priority >= #[trigger] sources@[k].priority,
        r.priority == 5 || exists|k: int|
            0 <= k < sources@.len() && r.priority == #[trigger] sources@[k].priority,
        // With non-negative counts, the access count is their sum, capped.
        (forall|k: int| 0 <= k < sources@.len() ==> #[trigger] sources@[k].access_count >= 0)
            ==> r.access_count == (if sum_access(sources@) <= i64::MAX {
            sum_access(sources@)
        } else {
            i64::MAX as int
        }),
        // Every tag of a merged memory is kept; the tags before the
        // provenance tags all come from merged memories; the last tags are
        // `consolidated-from:<id>` for each merged memory, in order.
        r.tags@.len() >= sources@.len(),
        forall|k: int, j: int|
            0 <= k < sources@.len() && 0 <= j < sources@[k].tags@.len() ==> r.tags.deep_view().contains(
                #[trigger] sources@[k].tags.deep_view()[j],
            ),
        forall|i: int|
            0 <= i < r.tags@.len() - sources@.len() ==> tag_of_some(
                sources@,
                #[trigger] r.tags.deep_view()[i],
            ),
        forall|k: int|
            0 <= k < sources@.len() ==> r.tags.deep_view()[r.tags@.len() - sources@.len() + k] == "consolidated-from:"@
                + #[trigger] sources@[k].id@,
{
    let ghost ps = sources@;
    let mut max_p: i32 = 5;
    let mut total: i64 = 0;
    let mut acc: Vec<Vec<char>> = Vec::new();
    assert(views(acc@) =~= Seq::<Seq<char>>::empty());
    for i in 0..sources.len()
        invariant
            ps == sources@,
            max_p == max_priority(ps.take(i as int)),
            total == total_access(ps.take(i as int)),
            strictly_sorted(views(acc@)),
            forall|y: Seq<char>| #[trigger]
                views(acc@).contains(y) <==> all_tags(ps.take(i as int)).contains(y),
    {
        assert(ps.take(i + 1).drop_last() == ps.take(i as int));
        let src = &sources[i];
        if src.priority > max_p {
            max_p = src.priority;
        }
        let t: i128 = total as i128 + src.access_count as i128;
        total = if t > i64::MAX as i128 {
            i64::MAX
        } else if t < i64::MIN as i128 {
            i64::MIN
        } else {
            t as i64
        };
        let ghost before = all_tags(ps.take(i as int));
        let ghost tv = src.tags.deep_view();
        for j in 0..src.tags.len()
            invariant
                tv == src.tags.deep_view(),
                strictly_sorted(views(acc@)),
                forall|y: Seq<char>| #[trigger]
                    views(acc@).contains(y) <==> (before + tv.take(j as int)).contains(y),
        {
            let ghost prev = views(acc@);
            let x = chars_of(src.tags[j].as_str());
            insert_sorted_unique(&mut acc, x);
            proof {
                assert(before + tv.take(j + 1) =~= (before + tv.take(j as int)).push(tv[j as int]));
                assert forall|y: Seq<char>| #[trigger]
                    views(acc@).contains(y) <==> (before + tv.take(j + 1)).contains(y) by {
                    lemma_push_contains(before + tv.take(j as int), tv[j as int], y);
                }
            }
        }
        assert(tv.take(tv.len() as int) == tv);
        assert(all_tags(ps.take(i + 1)) == before + tv);
    }
    assert(ps.take(sources.len() as int) == ps);
    // Sorted distinct tags, then provenance tags.
    let mut tags: Vec<String> = Vec::new();
    for k in 0..acc.len()
        invariant
            tags.deep_view() == views(acc@).take(k as int),
    {
        let ghost before = tags.deep_view();
        tags.push(string_from_chars(&acc[k]));
        assert(tags.deep_view() =~= before.push(acc@[k as int]@));
        assert(views(acc@).take(k + 1) =~= views(acc@).take(k as int).push(acc@[k as int]@));
    }
    assert(views(acc@).take(acc.len() as int) == views(acc@));
    let n_unique = tags.len();
    let prefix = chars_of("consolidated-from:");
    let separator = chars_of(", ");
    let mut content = chars_of(summary);
    extend_str(&mut content, "\n\n[Consolidated from: ");
    let ghost head = content@;
    for i in 0..sources.len()
        invariant
            ps == sources@,
            prefix@ == "consolidated-from:"@,
            separator@ == ", "@,
            n_unique <= tags@.len(),
            tags.deep_view().take(n_unique as int) == views(acc@),
            tags.deep_view().skip(n_unique as int) == provenance_tags(ps.take(i as int)),
            head == summary@ + "\n\n[Consolidated from: "@,
            content@ == head + join_with(source_ids(ps.take(i as int)), ", "@),
    {
        assert(ps.take(i + 1).drop_last() == ps.take(i as int));
        let id_chars = chars_of(sources[i].id.as_str());
        let mut tag = chars_of("consolidated-from:");
        extend_chars(&mut tag, &id_chars);
        let ghost before = tags.deep_view();
        tags.push(string_from_chars(&tag));
        assert(tags.deep_view() =~= before.push(tag@));
        assert(tags.deep_view().take(n_unique as int) =~= before.take(n_unique as int));
        assert(tags.deep_view().skip(n_unique as int) =~= before.skip(n_unique as int).push(tag@));
        let ghost ids = source_ids(ps.take(i as int));
        let ghost joined = join_with(ids, ", "@);
        if i > 0 {
            extend_chars(&mut content, &separator);
        }
        extend_chars(&mut content, &id_chars);
        proof {
            assert(source_ids(ps.take(i + 1)) == ids.push(id_chars@));
            assert(ids.push(id_chars@).drop_last() == ids);
            if i == 0 {
                assert(content@ =~= head + id_chars@);
            } else {
                assert(content@ =~= head + (joined + ", "@ + id_chars@));
            }
        }
    }
    assert(ps.take(sources.len() as int) == ps);
    extend_str(&mut content, "]");
    let r = ConsolidationPlan {
        priority: max_p,
        tags,
        access_count: total,
        content: string_from_chars(&content),
    };
    proof {
        lemma_provenance_len(ps);
        lemma_max_priority_bounds(ps);
        if forall|k: int| 0 <= k < ps.len() ==> #[trigger] ps[k].access_count >= 0 {
            lemma_total_access_is_capped_sum(ps);
        }
        let tv = r.tags.deep_view();
        let n = tv.len() - ps.len();
        let head = tv.take(n);
        assert forall|k: int, j: int|
            0 <= k < ps.len() && 0 <= j < ps[k].tags@.len() implies tv.contains(
                #[trigger] ps[k].tags.deep_view()[j],
            ) by {
            lemma_all_tags_holds(ps, k, j);
            let x = ps[k].tags.deep_view()[j];
            assert(head.contains(x));
            let i = choose|i: int| 0 <= i < head.len() && head[i] == x;
            assert(tv[i] == head[i]);
        }
        assert(tv.len() == r.tags@.len());
        assert forall|i: int|
            0 <= i < r.tags@.len() - sources@.len() implies tag_of_some(
                sources@,
                #[trigger] r.tags.deep_view()[i],
            ) by {
            assert(head[i] == tv[i]);
            assert(head.contains(tv[i]));
            lemma_all_tags_member(ps, tv[i]);
            let (k, j) = choose|k: int, j: int|
                0 <= k < ps.len() && 0 <= j < ps[k].tags.deep_view().len()
                    && #[trigger] ps[k].tags.deep_view()[j] == tv[i];
            assert(ps[k].tags.deep_view().len() == ps[k].tags@.len());
        }
        assert forall|k: int| 0 <= k < ps.len() implies tv[n + k] == "consolidated-from:"@
            + #[trigger] ps[k].id@ by {
            lemma_provenance_at(ps, k);
            assert(tv.skip(n)[k] == tv[n + k]);
        }
    }
    r
}

/// The consolidated priority is at least 5, at least the priority of every
/// merged memory, and either 5 or the priority of one of them.
pub proof fn lemma_max_priority_bounds(ps: Seq<SourceMemory>)
    ensures
        max_priority(ps) >= 5,
        forall|k: int| 0 <= k < ps.len() ==> max_priority(ps) >= #[trigger] ps[k].priority,
        max_priority(ps) == 5 || exists|k: int|
            0 <= k < ps.len() && max_priority(ps) == #[trigger] ps[k].priority,
    decreases ps.len(),
{
    if ps.len() > 0 {
        let q = ps.drop_last();
        lemma_max_priority_bounds(q);
        assert forall|k: int| 0 <= k < ps.len() implies max_priority(ps) >= #[trigger] ps[k].priority by {
            if k < q.len() {
                assert(ps[k] == q[k]);
            }
        }
        if max_priority(ps) != 5 {
            if ps.last().priority > max_priority(q) {
                assert(max_priority(ps) == ps[ps.len() - 1].priority);
            } else {
                let k = choose|k: int| 0 <= k < q.len() && max_priority(q) == #[trigger] q[k].priority;
                assert(ps[k] == q[k]);
            }
        }
    }
}

/// `x` is a tag of one of `ps`.
pub open spec fn tag_of_some(ps: Seq<SourceMemory>, x: Seq<char>) -> bool {
    exists|k: int, j: int|
        0 <= k < ps.len() && 0 <= j < ps[k].tags@.len() && #[trigger] ps[k].tags.deep_view()[j]
            == x
}

/// The sum of the access counts of `ps`, as an integer.
pub open spec fn sum_access(ps: Seq<SourceMemory>) -> int
    decreases ps.len(),
{
    if ps.len() == 0 {
        0
    } else {
        sum_access(ps.drop_last()) + ps.last().access_count
    }
}

/// With non-negative access counts, the consolidated access count is their
/// sum, or `i64::MAX` when the sum does not fit.
pub proof fn lemma_total_access_is_capped_sum(ps: Seq<SourceMemory>)
    requires
        forall|k: int| 0 <= k < ps.len() ==> #[trigger] ps[k].access_count >= 0,
    ensures
        sum_access(ps) >= 0,
        total_access(ps) == if sum_access(ps) <= i64::MAX {
            sum_access(ps)
        } else {
            i64::MAX as int
        },
    decreases ps.len(),
{
    if ps.len() > 0 {
        let q = ps.drop_last();
        assert forall|k: int| 0 <= k < q.len() implies #[trigger] q[k].access_count >= 0 by {
            assert(q[k] == ps[k]);
        }
        lemma_total_access_is_capped_sum(q);
        assert(ps.last().access_count == ps[ps.len() - 1].access_count);
    }
}

proof fn lemma_all_tags_holds(ps: Seq<SourceMemory>, k: int, j: int)
    requires
        0 <= k < ps.len(),
        0 <= j < ps[k].tags.deep_view().len(),
    ensures
        all_tags(ps).contains(ps[k].tags.deep_view()[j]),
    decreases ps.len(),
{
    let q = ps.drop_last();
    if k == ps.len() - 1 {
        let t = ps.last().tags.deep_view();
        assert(all_tags(ps) == all_tags(q) + t);
        assert(all_tags(ps)[all_tags(q).len() + j] == t[j]);
    } else {
        assert(ps[k] == q[k]);
        lemma_all_tags_holds(q, k, j);
        let i = choose|i: int| 0 <= i < all_tags(q).len() && all_tags(q)[i] == q[k].tags.deep_view()[j];
        assert(all_tags(ps) == all_tags(q) + ps.last().tags.deep_view());
        assert(all_tags(ps)[i] == all_tags(q)[i]);
    }
}

proof fn lemma_all_tags_member(ps: Seq<SourceMemory>, x: Seq<char>)
    requires
        all_tags(ps).contains(x),
    ensures
        exists|k: int, j: int|
            0 <= k < ps.len() && 0 <= j < ps[k].tags.deep_view().len() && #[trigger] ps[k].tags.deep_view()[j] == x,
    decreases ps.len(),
{
    let q = ps.drop_last();
    let t = ps.last().tags.deep_view();
    assert(all_tags(ps) == all_tags(q) + t);
    let i = choose|i: int| 0 <= i < all_tags(ps).len() && all_tags(ps)[i] == x;
    if i < all_tags(q).len() {
        assert(all_tags(q)[i] == x);
        lemma_all_tags_member(q, x);
        let (k, j) = choose|k: int, j: int|
            0 <= k < q.len() && 0 <= j < q[k].tags.deep_view().len() && #[trigger] q[k].tags.deep_view()[j] == x;
        assert(ps[k] == q[k]);
    } else {
        assert(t[i - all_tags(q).len()] == x);
        assert(ps[ps.len() - 1] == ps.last());
    }
}

proof fn lemma_provenance_at(ps: Seq<SourceMemory>, k: int)
    requires
        0 <= k < ps.len(),
    ensures
        provenance_tags(ps).len() == ps.len(),
        provenance_tags(ps)[k] == "consolidated-from:"@ + ps[k].id@,
    decreases ps.len(),
{
    let q = ps.drop_last();
    lemma_provenance_len(ps);
    lemma_provenance_len(q);
    if k < ps.len() - 1 {
        lemma_provenance_at(q, k);
        assert(ps[k] == q[k]);
    }
}

proof fn lemma_provenance_len(ps: Seq<SourceMemory>)
    ensures
        provenance_tags(ps).len() == ps.len(),
    decreases ps.len(),
{
    if ps.len() > 0 {
        lemma_provenance_len(ps.drop_last());
    }
}

/// Two lists that both hold the distinct elements of `all` in increasing
/// order are the same list: the tags that consolidation keeps are fully
/// determined by the merged memories' tags.
pub proof fn lemma_sorted_set_unique(u1: Seq<Seq<char>>, u2: Seq<Seq<char>>, all: Seq<Seq<char>>)
    requires
        is_sorted_set_of(u1, all),
        is_sorted_set_of(u2, all),
    ensures
        u1 == u2,
{
    lemma_sorted_same_contents_equal(u1, u2);
}

proof fn lemma_sorted_same_contents_equal(u1: Seq<Seq<char>>, u2: Seq<Seq<char>>)
    requires
        strictly_sorted(u1),
        strictly_sorted(u2),
        forall|x: Seq<char>| #[trigger] u1.contains(x) <==> u2.contains(x),
    ensures
        u1 == u2,
    decreases u1.len(),
{
    if u1.len() == 0 {
        if u2.len() > 0 {
            assert(u2.contains(u2[0]));
            assert(u1.contains(u2[0]));
            assert(false);
        }
        assert(u1 =~= u2);
    } else {
        assert(u1.contains(u1[0]));
        assert(u2.len() > 0);
        assert(u2.contains(u2[0]));
        assert(u1.contains(u2[0]));
        let k = choose|k: int| 0 <= k < u2.len() && u2[k] == u1[0];
        let m = choose|m: int| 0 <= m < u1.len() && u1[m] == u2[0];
        if k > 0 {
            assert(lex_lt(u2[0], u2[k]));
            if m > 0 {
                assert(lex_lt(u1[0], u1[m]));
                lemma_lex_asymmetric(u1[0], u1[m]);
            } else {
                lemma_lex_irreflexive(u1[0]);
            }
        }
        assert(u1[0] == u2[0]);
        let t1 = u1.drop_first();
        let t2 = u2.drop_first();
        assert forall|x: Seq<char>| #[trigger] t1.contains(x) <==> t2.contains(x) by {
            if t1.contains(x) {
                let a = choose|a: int| 0 <= a < t1.len() && t1[a] == x;
                assert(u1[a + 1] == x);
                assert(u1.contains(x));
                let b = choose|b: int| 0 <= b < u2.len() && u2[b] == x;
                if b == 0 {
                    assert(lex_lt(u1[0], u1[a + 1]));
                    lemma_lex_irreflexive(x);
                }
                assert(t2[b - 1] == x);
            }
            if t2.contains(x) {
                let a = choose|a: int| 0 <= a < t2.len() && t2[a] == x;
                assert(u2[a + 1] == x);
                assert(u2.contains(x));
                assert(u1.contains(x));
                let b = choose|b: int| 0 <= b < u1.len() && u1[b] == x;
                if b == 0 {
                    assert(lex_lt(u2[0], u2[a + 1]));
                    lemma_lex_irreflexive(x);
                }
                assert(t1[b - 1] == x);
            }
        }
        assert forall|i: int, j: int| 0 <= i < j < t1.len() implies lex_lt(
            #[trigger] t1[i],
            #[trigger] t1[j],
        ) by {
            assert(t1[i] == u1[i + 1] && t1[j] == u1[j + 1]);
        }
        assert forall|i: int, j: int| 0 <= i < j < t2.len() implies lex_lt(
            #[trigger] t2[i],
            #[trigger] t2[j],
        ) by {
            assert(t2[i] == u2[i + 1] && t2[j] == u2[j + 1]);
        }
        lemma_sorted_same_contents_equal(t1, t2);
        assert(u1 =~= seq![u1[0]] + t1);
        assert(u2 =~= seq![u2[0]] + t2);
    }
}

/// Reading back the stored name of a tier gives the tier.
pub proof fn lemma_stored_tier_roundtrip(t: Tier)
    ensures
        (match tier_of_name(t.name_text()) {
            Some(x) => x,
            None => Tier::Mid,
        }) == t,
{
    crate::models::lemma_tier_name_roundtrip(t);
}

} // verus!
