//! Full-text search abstraction layer.
//!
//! `TextSearch` is a trait that any backend can implement.  The default
//! implementation, `SqliteFts5`, turns free user input into a safe FTS5
//! query: the input is split into words at whitespace and hyphens, the
//! boolean operator words `AND`, `OR`, `NOT` and `NEAR` are dropped, FTS5
//! syntax characters and invisible Unicode characters are removed from every
//! word, each remaining word is wrapped in double quotes, and the terms are
//! joined with ` OR ` (recall) or a space (search).

use vstd::prelude::*;

use crate::text::{ascii_lower, chars_of, join_with, eq_ignore_ascii_case, eq_ignore_ascii_case_exec, extend_chars, is_whitespace, is_ws, string_from_chars};

verus! {

/// Pluggable full-text search interface.
///
/// Backends implement this to provide query sanitization and any
/// engine-specific query translation.
pub trait TextSearch: Send + Sync {
    /// Sanitize user input into a safe full-text query string.
    ///
    /// * `use_or` — `true` for fuzzy/recall (OR semantics),
    ///              `false` for precise/search (AND semantics).
    fn sanitize_query(&self, input: &str, use_or: bool) -> String;
}

/// SQLite FTS5 implementation of `TextSearch`.
#[derive(Debug, Clone, Copy)]
pub struct SqliteFts5;

impl TextSearch for SqliteFts5 {
    fn sanitize_query(&self, input: &str, use_or: bool) -> (r: String)
        ensures
            r@ == sanitized_query(input@, use_or),
    {
        sanitize_fts5_query(input, use_or)
    }
}

/// Invisible or zero-width characters and bidirectional controls: U+200B to
/// U+200F, U+FEFF, U+202A to U+202E and U+2066 to U+2069.
pub open spec fn is_invisible(c: char) -> bool {
    let u = c as u32;
    ||| 0x200B <= u <= 0x200F
    ||| u == 0xFEFF
    ||| 0x202A <= u <= 0x202E
    ||| 0x2066 <= u <= 0x2069
}

/// Returns `true` for invisible/zero-width Unicode characters that could
/// bypass search matching or inject directional overrides.
pub fn is_invisible_unicode(c: char) -> (r: bool)
    ensures
        r == is_invisible(c),
{
    let u = c as u32;
    (0x200B <= u && u <= 0x200F) || u == 0xFEFF || (0x202A <= u && u <= 0x202E) || (0x2066 <= u
        && u <= 0x2069)
}

/// Characters with a meaning in FTS5 query syntax.
pub open spec fn is_fts_special(c: char) -> bool {
    ||| c == '"'
    ||| c == '*'
    ||| c == '^'
    ||| c == '{'
    ||| c == '}'
    ||| c == '('
    ||| c == ')'
    ||| c == ':'
    ||| c == '-'
    ||| c == '|'
    ||| c == '\\'
}

/// Characters that separate the words of a query: whitespace and hyphens.
pub open spec fn is_query_sep(c: char) -> bool {
    is_ws(c) || c == '-'
}

/// Characters that survive in a query term.
pub open spec fn is_term_char(c: char) -> bool {
    !is_fts_special(c) && !is_invisible(c)
}

/// One step of word splitting: the words completed so far and the word in
/// progress, after reading `c`.
pub open spec fn word_step(st: (Seq<Seq<char>>, Seq<char>), c: char) -> (
    Seq<Seq<char>>,
    Seq<char>,
) {
    if is_query_sep(c) {
        (if st.1.len() > 0 {
            st.0.push(st.1)
        } else {
            st.0
        }, Seq::<char>::empty())
    } else {
        (st.0, st.1.push(c))
    }
}

/// Word splitting state after reading all of `s`.
pub open spec fn scan_words(s: Seq<char>) -> (Seq<Seq<char>>, Seq<char>)
    decreases s.len(),
{
    if s.len() == 0 {
        (Seq::<Seq<char>>::empty(), Seq::<char>::empty())
    } else {
        word_step(scan_words(s.drop_last()), s.last())
    }
}

/// The words of `s`: its maximal runs of non-separator characters, in order.
pub open spec fn query_words(s: Seq<char>) -> Seq<Seq<char>> {
    let st = scan_words(s);
    if st.1.len() > 0 {
        st.0.push(st.1)
    } else {
        st.0
    }
}

/// `w` is one of the FTS5 operators `AND`, `OR`, `NOT`, `NEAR`, in any
/// letter case.  Ignoring ASCII case is the same as comparing upper cases
/// here: the only characters outside ASCII whose upper case is an ASCII
/// letter are the dotless `ı` and the long `ſ`, which give `I` and `S`, and
/// neither letter occurs in these words.
pub open spec fn is_operator(w: Seq<char>) -> bool {
    ||| eq_ignore_ascii_case(w, seq!['a', 'n', 'd'])
    ||| eq_ignore_ascii_case(w, seq!['o', 'r'])
    ||| eq_ignore_ascii_case(w, seq!['n', 'o', 't'])
    ||| eq_ignore_ascii_case(w, seq!['n', 'e', 'a', 'r'])
}

/// `w` without its FTS5 syntax characters and invisible characters.
pub open spec fn clean_word(w: Seq<char>) -> Seq<char>
    decreases w.len(),
{
    if w.len() == 0 {
        w
    } else {
        let r = clean_word(w.drop_last());
        if is_term_char(w.last()) {
            r.push(w.last())
        } else {
            r
        }
    }
}

/// `w` between double quotes.
pub open spec fn quoted(w: Seq<char>) -> Seq<char> {
    seq!['"'] + w + seq!['"']
}

/// A word becomes a term unless it is an operator or nothing is left of it
/// after cleaning.
pub open spec fn is_kept_word(w: Seq<char>) -> bool {
    !is_operator(w) && clean_word(w).len() > 0
}

/// The quoted terms made from a list of words, in order.
pub open spec fn query_terms(ws: Seq<Seq<char>>) -> Seq<Seq<char>>
    decreases ws.len(),
{
    if ws.len() == 0 {
        Seq::<Seq<char>>::empty()
    } else {
        let t = query_terms(ws.drop_last());
        if is_kept_word(ws.last()) {
            t.push(quoted(clean_word(ws.last())))
        } else {
            t
        }
    }
}

/// The text between two terms: ` OR ` or a single space.
pub open spec fn term_joiner(use_or: bool) -> Seq<char> {
    if use_or {
        seq![' ', 'O', 'R', ' ']
    } else {
        seq![' ']
    }
}

/// The query returned when no term is left: a phrase that matches nothing.
pub open spec fn empty_query_sentinel() -> Seq<char> {
    "\"__aimemory_empty_query__\""@
}

/// The sanitized form of `input`.
pub open spec fn sanitized_query(input: Seq<char>, use_or: bool) -> Seq<char> {
    let ts = query_terms(query_words(input));
    if ts.len() == 0 {
        empty_query_sentinel()
    } else {
        join_with(ts, term_joiner(use_or))
    }
}

fn is_query_sep_exec(c: char) -> (r: bool)
    ensures
        r == is_query_sep(c),
{
    is_whitespace(c) || c == '-'
}

fn is_term_char_exec(c: char) -> (r: bool)
    ensures
        r == is_term_char(c),
{
    !(c == '"' || c == '*' || c == '^' || c == '{' || c == '}' || c == '(' || c == ')' || c
        == ':' || c == '-' || c == '|' || c == '\\') && !is_invisible_unicode(c)
}

fn is_operator_exec(w: &Vec<char>) -> (r: bool)
    ensures
        r == is_operator(w@),
        r <==> (eq_ignore_ascii_case(w@, seq!['a', 'n', 'd']) || eq_ignore_ascii_case(
            w@,
            seq!['o', 'r'],
        ) || eq_ignore_ascii_case(w@, seq!['n', 'o', 't']) || eq_ignore_ascii_case(
            w@,
            seq!['n', 'e', 'a', 'r'],
        )),
{
    let and_kw = vec!['a', 'n', 'd'];
    let or_kw = vec!['o', 'r'];
    let not_kw = vec!['n', 'o', 't'];
    let near_kw = vec!['n', 'e', 'a', 'r'];
    assert(and_kw@ == seq!['a', 'n', 'd']);
    assert(or_kw@ == seq!['o', 'r']);
    assert(not_kw@ == seq!['n', 'o', 't']);
    assert(near_kw@ == seq!['n', 'e', 'a', 'r']);
    eq_ignore_ascii_case_exec(w, &and_kw) || eq_ignore_ascii_case_exec(w, &or_kw)
        || eq_ignore_ascii_case_exec(w, &not_kw) || eq_ignore_ascii_case_exec(w, &near_kw)
}

fn clean_word_exec(w: &Vec<char>) -> (r: Vec<char>)
    ensures
        r@ == clean_word(w@),
{
    let mut r: Vec<char> = Vec::new();
    for i in 0..w.len()
        invariant
            r@ == clean_word(w@.take(i as int)),
    {
        assert(w@.take(i + 1).drop_last() == w@.take(i as int));
        if is_term_char_exec(w[i]) {
            r.push(w[i]);
        }
    }
    assert(w@.take(w.len() as int) == w@);
    r
}

/// Turns a completed word into a term (when it is kept) at the end of `out`.
fn add_word(
    out: &mut Vec<char>,
    n_terms: &mut usize,
    word: &Vec<char>,
    joiner: &Vec<char>,
    Ghost(ws): Ghost<Seq<Seq<char>>>,
)
    requires
        old(out)@ == join_with(query_terms(ws), joiner@),
        *old(n_terms) == query_terms(ws).len(),
        *old(n_terms) < usize::MAX,
    ensures
        final(out)@ == join_with(query_terms(ws.push(word@)), joiner@),
        *final(n_terms) == query_terms(ws.push(word@)).len(),
        *final(n_terms) <= *old(n_terms) + 1,
{
    assert(ws.push(word@).drop_last() == ws);
    if !is_operator_exec(word) {
        let clean = clean_word_exec(word);
        if clean.len() > 0 {
            let ghost t = query_terms(ws);
            if *n_terms > 0 {
                extend_chars(out, joiner);
            }
            out.push('"');
            extend_chars(out, &clean);
            out.push('"');
            *n_terms = *n_terms + 1;
            proof {
                let q = quoted(clean@);
                assert(query_terms(ws.push(word@)) == t.push(q));
                assert(t.push(q).drop_last() == t);
                if t.len() == 0 {
                    assert(final(out)@ =~= q);
                } else {
                    assert(final(out)@ =~= join_with(t, joiner@) + joiner@ + q);
                }
            }
        }
    }
}

/// Core FTS5 sanitization: splits the input into words at whitespace and
/// hyphens, drops boolean operator words, strips special characters, wraps
/// each remaining word in quotes, and joins the terms with ` OR ` or a space.
pub fn sanitize_fts5_query(input: &str, use_or: bool) -> (r: String)
    ensures
        r@ == sanitized_query(input@, use_or),
{
    let cs = chars_of(input);
    let joiner = if use_or {
        vec![' ', 'O', 'R', ' ']
    } else {
        vec![' ']
    };
    assert(joiner@ == term_joiner(use_or));
    let mut out: Vec<char> = Vec::new();
    let mut n_terms: usize = 0;
    let mut cur: Vec<char> = Vec::new();
    let ghost mut ws: Seq<Seq<char>> = Seq::empty();
    assert(cs@.take(0) == Seq::<char>::empty());
    for i in 0..cs.len()
        invariant
            joiner@ == term_joiner(use_or),
            (ws, cur@) == scan_words(cs@.take(i as int)),
            out@ == join_with(query_terms(ws), joiner@),
            n_terms == query_terms(ws).len(),
            n_terms + (if cur@.len() > 0 {
                1int
            } else {
                0int
            }) <= i,
    {
        let c = cs[i];
        assert(cs@.take(i + 1).drop_last() == cs@.take(i as int));
        if is_query_sep_exec(c) {
            if cur.len() > 0 {
                add_word(&mut out, &mut n_terms, &cur, &joiner, Ghost(ws));
                proof {
                    ws = ws.push(cur@);
                }
            }
            cur = Vec::new();
        } else {
            cur.push(c);
        }
    }
    assert(cs@.take(cs.len() as int) == cs@);
    if cur.len() > 0 {
        add_word(&mut out, &mut n_terms, &cur, &joiner, Ghost(ws));
        proof {
            ws = ws.push(cur@);
        }
    }
    if n_terms == 0 {
        return String::from_str("\"__aimemory_empty_query__\"");
    }
    string_from_chars(&out)
}

// ---------------------------------------------------------------------------
// Which words become terms
// ---------------------------------------------------------------------------
/// `w` is one of `and`, `or`, `not`, `near`, ignoring ASCII case.
pub open spec fn names_operator(w: Seq<char>) -> bool {
    ||| eq_ignore_ascii_case(w, seq!['a', 'n', 'd'])
    ||| eq_ignore_ascii_case(w, seq!['o', 'r'])
    ||| eq_ignore_ascii_case(w, seq!['n', 'o', 't'])
    ||| eq_ignore_ascii_case(w, seq!['n', 'e', 'a', 'r'])
}

proof fn lemma_single_word(w: Seq<char>)
    requires
        w.len() > 0,
        has_no_sep(w),
    ensures
        query_words(w) == seq![w],
{
    lemma_scan_words_from_start(w);
    lemma_scan_from_plain((Seq::<Seq<char>>::empty(), Seq::<char>::empty()), w);
    assert(Seq::<char>::empty() + w =~= w);
    assert(Seq::<Seq<char>>::empty().push(w) =~= seq![w]);
}

proof fn lemma_two_words(w1: Seq<char>, c: char, w2: Seq<char>)
    requires
        w1.len() > 0,
        w2.len() > 0,
        has_no_sep(w1),
        has_no_sep(w2),
        is_query_sep(c),
    ensures
        query_words(w1 + seq![c] + w2) == seq![w1, w2],
{
    let e = (Seq::<Seq<char>>::empty(), Seq::<char>::empty());
    lemma_scan_words_from_start(w1 + seq![c] + w2);
    lemma_scan_from_concat(e, w1 + seq![c], w2);
    lemma_scan_from_concat(e, w1, seq![c]);
    lemma_scan_from_plain(e, w1);
    assert(Seq::<char>::empty() + w1 =~= w1);
    let st1 = scan_from(e, w1);
    assert(seq![c].drop_last() =~= Seq::<char>::empty());
    assert(seq![c].last() == c);
    assert(scan_from(st1, Seq::<char>::empty()) == st1);
    assert(scan_from(st1, seq![c]) == word_step(st1, c));
    let st2 = scan_from(st1, seq![c]);
    assert(st2 == (seq![w1], Seq::<char>::empty()));
    lemma_scan_from_plain(st2, w2);
    assert(Seq::<char>::empty() + w2 =~= w2);
    assert(seq![w1].push(w2) =~= seq![w1, w2]);
}

/// Only whole operator words are dropped: a word without separators that is
/// not `and`, `or`, `not` or `near` (ignoring ASCII case) and keeps some
/// character after cleaning is sanitized to itself, cleaned and quoted.
pub proof fn lemma_plain_word_becomes_term(w: Seq<char>, use_or: bool)
    requires
        w.len() > 0,
        has_no_sep(w),
        !names_operator(w),
        clean_word(w).len() > 0,
    ensures
        sanitized_query(w, use_or) == seq!['"'] + clean_word(w) + seq!['"'],
{
    lemma_single_word(w);
    let ws = seq![w];
    assert(ws.drop_last() =~= Seq::<Seq<char>>::empty());
    assert(ws.last() == w);
    assert(query_terms(Seq::<Seq<char>>::empty()) == Seq::<Seq<char>>::empty());
    assert(is_kept_word(w));
    assert(query_terms(ws) =~= seq![quoted(clean_word(w))]);
}

/// A word that is `and`, `or`, `not` or `near` in any ASCII case is dropped:
/// alone, it leaves the query that matches nothing.
pub proof fn lemma_operator_word_dropped(w: Seq<char>, use_or: bool)
    requires
        w.len() > 0,
        has_no_sep(w),
        names_operator(w),
    ensures
        sanitized_query(w, use_or) == "\"__aimemory_empty_query__\""@,
{
    lemma_single_word(w);
    let ws = seq![w];
    assert(ws.drop_last() =~= Seq::<Seq<char>>::empty());
    assert(ws.last() == w);
    assert(query_terms(Seq::<Seq<char>>::empty()) == Seq::<Seq<char>>::empty());
    assert(!is_kept_word(w));
    assert(query_terms(ws) == Seq::<Seq<char>>::empty());
}

/// Two kept words separated by whitespace or a hyphen give two quoted terms
/// joined by ` OR ` (recall) or a single space (search).
pub proof fn lemma_two_words_joined(w1: Seq<char>, c: char, w2: Seq<char>, use_or: bool)
    requires
        w1.len() > 0,
        w2.len() > 0,
        has_no_sep(w1),
        has_no_sep(w2),
        is_query_sep(c),
        !names_operator(w1),
        !names_operator(w2),
        clean_word(w1).len() > 0,
        clean_word(w2).len() > 0,
    ensures
        sanitized_query(w1 + seq![c] + w2, use_or) == seq!['"'] + clean_word(w1) + seq!['"'] + (
        if use_or {
            seq![' ', 'O', 'R', ' ']
        } else {
            seq![' ']
        }) + seq!['"'] + clean_word(w2) + seq!['"'],
{
    lemma_two_words(w1, c, w2);
    let ws = seq![w1, w2];
    assert(ws.drop_last() =~= seq![w1]);
    assert(seq![w1].drop_last() =~= Seq::<Seq<char>>::empty());
    let t1 = quoted(clean_word(w1));
    let t2 = quoted(clean_word(w2));
    assert(query_terms(Seq::<Seq<char>>::empty()) == Seq::<Seq<char>>::empty());
    assert(is_kept_word(w1) && is_kept_word(w2));
    assert(seq![w1].last() == w1 && ws.last() == w2);
    assert(query_terms(seq![w1]) =~= seq![t1]);
    assert(query_terms(ws) =~= seq![t1, t2]);
    let ts = seq![t1, t2];
    assert(ts.drop_last() =~= seq![t1]);
    assert(ts.last() == t2);
    assert(join_with(seq![t1], term_joiner(use_or)) == t1);
    assert(join_with(ts, term_joiner(use_or)) =~= t1 + term_joiner(use_or) + t2);
}

/// Cleaning removes exactly the FTS5 syntax characters `"*^{}():-|\` and
/// the invisible characters U+200B to U+200F, U+FEFF, U+202A to U+202E and
/// U+2066 to U+2069: none of them is left, and a word without them stays as
/// it is.
pub proof fn lemma_clean_word_removes_exactly(w: Seq<char>)
    ensures
        forall|i: int|
            #![trigger clean_word(w)[i]]
            0 <= i < clean_word(w).len() ==> {
                let c = clean_word(w)[i];
                let u = c as u32;
                &&& c != '"' && c != '*' && c != '^' && c != '{' && c != '}' && c != '(' && c
                    != ')' && c != ':' && c != '-' && c != '|' && c != '\\'
                &&& !(0x200B <= u <= 0x200F || u == 0xFEFF || 0x202A <= u <= 0x202E || 0x2066
                    <= u <= 0x2069)
            },
        (forall|i: int|
            #![trigger w[i]]
            0 <= i < w.len() ==> {
                let c = w[i];
                let u = c as u32;
                &&& c != '"' && c != '*' && c != '^' && c != '{' && c != '}' && c != '(' && c
                    != ')' && c != ':' && c != '-' && c != '|' && c != '\\'
                &&& !(0x200B <= u <= 0x200F || u == 0xFEFF || 0x202A <= u <= 0x202E || 0x2066
                    <= u <= 0x2069)
            }) ==> clean_word(w) == w,
    decreases w.len(),
{
    if w.len() > 0 {
        let q = w.drop_last();
        lemma_clean_word_removes_exactly(q);
        let r = clean_word(q);
        if is_term_char(w.last()) {
            let r2 = r.push(w.last());
            assert forall|i: int| #![trigger r2[i]] 0 <= i < r2.len() implies {
                let c = r2[i];
                let u = c as u32;
                &&& c != '"' && c != '*' && c != '^' && c != '{' && c != '}' && c != '(' && c
                    != ')' && c != ':' && c != '-' && c != '|' && c != '\\'
                &&& !(0x200B <= u <= 0x200F || u == 0xFEFF || 0x202A <= u <= 0x202E || 0x2066
                    <= u <= 0x2069)
            } by {
                if i < r.len() {
                    assert(r2[i] == r[i]);
                }
            }
        }
        if forall|i: int|
            #![trigger w[i]]
            0 <= i < w.len() ==> {
                let c = w[i];
                let u = c as u32;
                &&& c != '"' && c != '*' && c != '^' && c != '{' && c != '}' && c != '(' && c
                    != ')' && c != ':' && c != '-' && c != '|' && c != '\\'
                &&& !(0x200B <= u <= 0x200F || u == 0xFEFF || 0x202A <= u <= 0x202E || 0x2066
                    <= u <= 0x2069)
            } {
            assert forall|i: int| #![trigger q[i]] 0 <= i < q.len() implies {
                let c = q[i];
                let u = c as u32;
                &&& c != '"' && c != '*' && c != '^' && c != '{' && c != '}' && c != '(' && c
                    != ')' && c != ':' && c != '-' && c != '|' && c != '\\'
                &&& !(0x200B <= u <= 0x200F || u == 0xFEFF || 0x202A <= u <= 0x202E || 0x2066
                    <= u <= 0x2069)
            } by {
                assert(q[i] == w[i]);
            }
            assert(w[w.len() - 1] == w.last());
            assert(q.push(w.last()) =~= w);
        }
    }
}

// ---------------------------------------------------------------------------
// Idempotence of sanitization
// ---------------------------------------------------------------------------
/// Word splitting state after reading `b`, starting from state `st`.
pub open spec fn scan_from(st: (Seq<Seq<char>>, Seq<char>), b: Seq<char>) -> (
    Seq<Seq<char>>,
    Seq<char>,
)
    decreases b.len(),
{
    if b.len() == 0 {
        st
    } else {
        word_step(scan_from(st, b.drop_last()), b.last())
    }
}

/// No character of `w` separates words.
pub open spec fn has_no_sep(w: Seq<char>) -> bool {
    forall|i: int| 0 <= i < w.len() ==> !is_query_sep(#[trigger] w[i])
}

/// A term as sanitization produces it: a non-empty run of term characters
/// that separate nothing, between double quotes.
pub open spec fn is_good_term(t: Seq<char>) -> bool {
    &&& t.len() >= 3
    &&& t[0] == '"'
    &&& t.last() == '"'
    &&& forall|i: int|
        1 <= i < t.len() - 1 ==> is_term_char(#[trigger] t[i]) && !is_query_sep(t[i])
}

proof fn lemma_scan_words_from_start(s: Seq<char>)
    ensures
        scan_words(s) == scan_from((Seq::<Seq<char>>::empty(), Seq::<char>::empty()), s),
    decreases s.len(),
{
    if s.len() > 0 {
        lemma_scan_words_from_start(s.drop_last());
    }
}

proof fn lemma_scan_from_concat(st: (Seq<Seq<char>>, Seq<char>), a: Seq<char>, b: Seq<char>)
    ensures
        scan_from(st, a + b) == scan_from(scan_from(st, a), b),
    decreases b.len(),
{
    if b.len() == 0 {
        assert(a + b =~= a);
    } else {
        assert((a + b).drop_last() =~= a + b.drop_last());
        assert((a + b).last() == b.last());
        lemma_scan_from_concat(st, a, b.drop_last());
    }
}

proof fn lemma_scan_from_plain(st: (Seq<Seq<char>>, Seq<char>), t: Seq<char>)
    requires
        has_no_sep(t),
    ensures
        scan_from(st, t) == (st.0, st.1 + t),
    decreases t.len(),
{
    if t.len() == 0 {
        assert(st.1 + t =~= st.1);
    } else {
        assert(!is_query_sep(t[t.len() - 1]));
        lemma_scan_from_plain(st, t.drop_last());
        assert(st.1 + t.drop_last() + seq![t.last()] =~= st.1 + t);
    }
}

proof fn lemma_scan_joiner(ws: Seq<Seq<char>>, cur: Seq<char>, use_or: bool)
    requires
        cur.len() > 0,
    ensures
        scan_from((ws, cur), term_joiner(use_or)) == (if use_or {
            ws.push(cur).push(seq!['O', 'R'])
        } else {
            ws.push(cur)
        }, Seq::<char>::empty()),
{
    let j = term_joiner(use_or);
    let s0 = (ws, cur);
    let e = Seq::<char>::empty();
    assert(is_query_sep(' '));
    assert(!is_query_sep('O') && !is_query_sep('R'));
    assert(seq![' '].drop_last() =~= e);
    assert(seq![' '].last() == ' ');
    assert(scan_from(s0, e) == s0);
    assert(scan_from(s0, seq![' ']) == word_step(s0, ' '));
    assert(scan_from(s0, seq![' ']) == (ws.push(cur), e));
    if use_or {
        assert(seq![' ', 'O'].drop_last() =~= seq![' ']);
        assert(seq![' ', 'O'].last() == 'O');
        assert(seq![' ', 'O', 'R'].last() == 'R');
        assert(j.last() == ' ');
        assert(scan_from(s0, seq![' ', 'O']) == (ws.push(cur), e.push('O')));
        assert(seq![' ', 'O', 'R'].drop_last() =~= seq![' ', 'O']);
        assert(scan_from(s0, seq![' ', 'O', 'R']) == (ws.push(cur), e.push('O').push('R')));
        assert(j.drop_last() =~= seq![' ', 'O', 'R']);
        assert(e.push('O').push('R') =~= seq!['O', 'R']);
        assert(e.push('O').push('R').len() > 0);
        assert(scan_from(s0, j) == word_step(scan_from(s0, seq![' ', 'O', 'R']), ' '));
    } else {
        assert(j =~= seq![' ']);
    }
}

proof fn lemma_clean_concat(a: Seq<char>, b: Seq<char>)
    ensures
        clean_word(a + b) == clean_word(a) + clean_word(b),
    decreases b.len(),
{
    if b.len() == 0 {
        assert(a + b =~= a);
        assert(clean_word(a) + clean_word(b) =~= clean_word(a));
    } else {
        assert((a + b).drop_last() =~= a + b.drop_last());
        lemma_clean_concat(a, b.drop_last());
        if is_term_char(b.last()) {
            assert(clean_word(a) + clean_word(b.drop_last()).push(b.last()) =~= (clean_word(a)
                + clean_word(b.drop_last())).push(b.last()));
        }
    }
}

proof fn lemma_clean_of_term_chars(c: Seq<char>)
    requires
        forall|i: int| 0 <= i < c.len() ==> is_term_char(#[trigger] c[i]),
    ensures
        clean_word(c) == c,
    decreases c.len(),
{
    if c.len() > 0 {
        assert(is_term_char(c[c.len() - 1]));
        lemma_clean_of_term_chars(c.drop_last());
        assert(c.drop_last().push(c.last()) =~= c);
    }
}

proof fn lemma_clean_chars(w: Seq<char>)
    ensures
        forall|i: int| 0 <= i < clean_word(w).len() ==> is_term_char(#[trigger] clean_word(w)[i]),
        has_no_sep(w) ==> has_no_sep(clean_word(w)),
    decreases w.len(),
{
    if w.len() > 0 {
        lemma_clean_chars(w.drop_last());
        let r = clean_word(w.drop_last());
        if has_no_sep(w) {
            assert forall|i: int| 0 <= i < w.drop_last().len() implies !is_query_sep(
                #[trigger] w.drop_last()[i],
            ) by {
                assert(w.drop_last()[i] == w[i]);
            }
            assert(!is_query_sep(w[w.len() - 1]));
        }
        if is_term_char(w.last()) {
            assert forall|i: int| 0 <= i < r.push(w.last()).len() implies is_term_char(
                #[trigger] r.push(w.last())[i],
            ) by {
                if i < r.len() {
                    assert(r.push(w.last())[i] == r[i]);
                }
            }
        }
    }
}

/// A good term is kept as it is when sanitized again.
proof fn lemma_good_term_kept(t: Seq<char>)
    requires
        is_good_term(t),
    ensures
        is_kept_word(t),
        quoted(clean_word(t)) == t,
        has_no_sep(t),
{
    let c = t.subrange(1, t.len() - 1);
    assert(t =~= seq![t[0]] + c + seq![t.last()]);
    assert forall|i: int| 0 <= i < c.len() implies is_term_char(#[trigger] c[i]) by {
        assert(c[i] == t[i + 1]);
    }
    lemma_clean_of_term_chars(c);
    lemma_clean_concat(seq![t[0]] + c, seq![t.last()]);
    lemma_clean_concat(seq![t[0]], c);
    assert(!is_term_char(t[0]) && !is_term_char(t.last()));
    assert(clean_word(Seq::<char>::empty()) == Seq::<char>::empty());
    assert(seq![t[0]].drop_last() =~= Seq::<char>::empty());
    assert(seq![t.last()].drop_last() =~= Seq::<char>::empty());
    assert(clean_word(seq![t[0]]) =~= Seq::<char>::empty());
    assert(clean_word(seq![t.last()]) =~= Seq::<char>::empty());
    assert(clean_word(t) =~= c);
    assert(quoted(c) =~= t);
    assert(ascii_lower(t[0]) != ascii_lower('a'));
    assert(ascii_lower(t[0]) != ascii_lower('o'));
    assert(ascii_lower(t[0]) != ascii_lower('n'));
    assert(!eq_ignore_ascii_case(t, seq!['a', 'n', 'd']));
    assert(!eq_ignore_ascii_case(t, seq!['o', 'r']));
    assert(!eq_ignore_ascii_case(t, seq!['n', 'o', 't']));
    assert(!eq_ignore_ascii_case(t, seq!['n', 'e', 'a', 'r']));
    assert(c.len() > 0);
    assert forall|i: int| 0 <= i < t.len() implies !is_query_sep(#[trigger] t[i]) by {
        if 1 <= i < t.len() - 1 {
        } else {
            assert(t[i] == '"');
        }
    }
}

/// The words of a sanitized query contain no separator.
proof fn lemma_scan_no_sep(s: Seq<char>)
    ensures
        forall|k: int|
            0 <= k < scan_words(s).0.len() ==> has_no_sep(#[trigger] scan_words(s).0[k]),
        has_no_sep(scan_words(s).1),
    decreases s.len(),
{
    if s.len() > 0 {
        lemma_scan_no_sep(s.drop_last());
        let prev = scan_words(s.drop_last());
        let c = s.last();
        if !is_query_sep(c) {
            assert forall|i: int| 0 <= i < prev.1.push(c).len() implies !is_query_sep(
                #[trigger] prev.1.push(c)[i],
            ) by {
                if i < prev.1.len() {
                    assert(prev.1.push(c)[i] == prev.1[i]);
                }
            }
        } else if prev.1.len() > 0 {
            assert forall|k: int| 0 <= k < prev.0.push(prev.1).len() implies has_no_sep(
                #[trigger] prev.0.push(prev.1)[k],
            ) by {
                if k < prev.0.len() {
                    assert(prev.0.push(prev.1)[k] == prev.0[k]);
                }
            }
        }
    }
}

proof fn lemma_terms_good(ws: Seq<Seq<char>>)
    requires
        forall|k: int| 0 <= k < ws.len() ==> has_no_sep(#[trigger] ws[k]),
    ensures
        forall|k: int|
            0 <= k < query_terms(ws).len() ==> is_good_term(#[trigger] query_terms(ws)[k]),
    decreases ws.len(),
{
    if ws.len() > 0 {
        assert forall|k: int| 0 <= k < ws.drop_last().len() implies has_no_sep(
            #[trigger] ws.drop_last()[k],
        ) by {
            assert(ws.drop_last()[k] == ws[k]);
        }
        lemma_terms_good(ws.drop_last());
        let w = ws.last();
        assert(has_no_sep(ws[ws.len() - 1]));
        if is_kept_word(w) {
            let c = clean_word(w);
            lemma_clean_chars(w);
            let q = quoted(c);
            assert forall|i: int| 1 <= i < q.len() - 1 implies is_term_char(#[trigger] q[i])
                && !is_query_sep(q[i]) by {
                assert(q[i] == c[i - 1]);
            }
            let t = query_terms(ws.drop_last());
            assert forall|k: int| 0 <= k < t.push(q).len() implies is_good_term(
                #[trigger] t.push(q)[k],
            ) by {
                if k < t.len() {
                    assert(t.push(q)[k] == t[k]);
                }
            }
        }
    }
}

/// Splitting a join of good terms and turning its words into terms again
/// gives the same terms back.
proof fn lemma_terms_of_join(ts: Seq<Seq<char>>, use_or: bool)
    requires
        ts.len() > 0,
        forall|k: int| 0 <= k < ts.len() ==> is_good_term(#[trigger] ts[k]),
    ensures
        scan_words(join_with(ts, term_joiner(use_or))).1 == ts.last(),
        query_terms(scan_words(join_with(ts, term_joiner(use_or))).0) == ts.drop_last(),
    decreases ts.len(),
{
    let j = term_joiner(use_or);
    let empty_st = (Seq::<Seq<char>>::empty(), Seq::<char>::empty());
    let t = ts.last();
    assert(is_good_term(ts[ts.len() - 1]));
    lemma_good_term_kept(t);
    if ts.len() == 1 {
        lemma_scan_words_from_start(t);
        lemma_scan_from_plain(empty_st, t);
        assert(Seq::<char>::empty() + t =~= t);
        assert(ts.drop_last() =~= Seq::<Seq<char>>::empty());
    } else {
        let init = ts.drop_last();
        assert forall|k: int| 0 <= k < init.len() implies is_good_term(#[trigger] init[k]) by {
            assert(init[k] == ts[k]);
        }
        lemma_terms_of_join(init, use_or);
        let x = join_with(init, j);
        let st = scan_words(x);
        let prev = init.last();
        assert(is_good_term(init[init.len() - 1]));
        assert(join_with(ts, j) == x + j + t);
        lemma_scan_words_from_start(x + j + t);
        lemma_scan_words_from_start(x);
        lemma_scan_from_concat(empty_st, x + j, t);
        lemma_scan_from_concat(empty_st, x, j);
        assert(st.1 == prev);
        lemma_scan_joiner(st.0, st.1, use_or);
        let mid = if use_or {
            st.0.push(prev).push(seq!['O', 'R'])
        } else {
            st.0.push(prev)
        };
        lemma_scan_from_plain((mid, Seq::<char>::empty()), t);
        assert(Seq::<char>::empty() + t =~= t);
        lemma_good_term_kept(prev);
        assert(st.0.push(prev).drop_last() == st.0);
        assert(st.0.push(prev).last() == prev);
        assert(query_terms(st.0.push(prev)) == init.drop_last().push(prev));
        assert(init.drop_last().push(prev) =~= init);
        if use_or {
            assert(st.0.push(prev).push(seq!['O', 'R']).drop_last() == st.0.push(prev));
            assert(eq_ignore_ascii_case(seq!['O', 'R'], seq!['o', 'r']));
        }
        assert(query_terms(mid) == init);
        assert(ts.drop_last() == init);
    }
}

/// The terms of a sanitized query are the terms it was made from.
proof fn lemma_resanitize_terms(ts: Seq<Seq<char>>, use_or: bool)
    requires
        ts.len() > 0,
        forall|k: int| 0 <= k < ts.len() ==> is_good_term(#[trigger] ts[k]),
    ensures
        query_terms(query_words(join_with(ts, term_joiner(use_or)))) == ts,
{
    lemma_terms_of_join(ts, use_or);
    let st = scan_words(join_with(ts, term_joiner(use_or)));
    assert(is_good_term(ts[ts.len() - 1]));
    lemma_good_term_kept(ts.last());
    assert(st.1.len() > 0);
    assert(query_words(join_with(ts, term_joiner(use_or))) == st.0.push(ts.last()));
    assert(st.0.push(ts.last()).drop_last() == st.0);
    assert(st.0.push(ts.last()).last() == ts.last());
    assert(ts.drop_last().push(ts.last()) =~= ts);
}

/// Sanitizing a sanitized query changes nothing: the result is already a
/// safe query, so sanitization can be applied twice without harm.
pub proof fn lemma_sanitize_idempotent(input: Seq<char>, use_or: bool)
    ensures
        sanitized_query(sanitized_query(input, use_or), use_or) == sanitized_query(input, use_or),
{
    let ts = query_terms(query_words(input));
    lemma_scan_no_sep(input);
    let st = scan_words(input);
    assert forall|k: int| 0 <= k < query_words(input).len() implies has_no_sep(
        #[trigger] query_words(input)[k],
    ) by {
        if k < st.0.len() {
            assert(query_words(input)[k] == st.0[k]);
        }
    }
    lemma_terms_good(query_words(input));
    if ts.len() == 0 {
        let e = empty_query_sentinel();
        reveal_strlit("\"__aimemory_empty_query__\"");
        assert(is_good_term(e));
        let one = seq![e];
        assert(join_with(one, term_joiner(use_or)) == e);
        lemma_resanitize_terms(one, use_or);
    } else {
        lemma_resanitize_terms(ts, use_or);
    }
}

/// Every term of a sanitized query is a non-empty run of characters that
/// have no meaning in FTS5 syntax, are not invisible and separate no words,
/// between double quotes; the query is those terms joined, or the sentinel
/// when there are none.
pub proof fn lemma_sanitized_terms_are_safe(input: Seq<char>, use_or: bool)
    ensures
        forall|k: int|
            0 <= k < query_terms(query_words(input)).len() ==> is_good_term(
                #[trigger] query_terms(query_words(input))[k],
            ),
        sanitized_query(input, use_or) == (if query_terms(query_words(input)).len() == 0 {
            empty_query_sentinel()
        } else {
            join_with(query_terms(query_words(input)), term_joiner(use_or))
        }),
{
    lemma_scan_no_sep(input);
    let st = scan_words(input);
    assert forall|k: int| 0 <= k < query_words(input).len() implies has_no_sep(
        #[trigger] query_words(input)[k],
    ) by {
        if k < st.0.len() {
            assert(query_words(input)[k] == st.0[k]);
        }
    }
    lemma_terms_good(query_words(input));
}

} // verus!
