//! Cleaning of text before it is stored.

use vstd::prelude::*;

use crate::fts::{is_invisible, is_invisible_unicode};
use crate::text::{chars_of, string_from_chars};

verus! {

/// `s` without its invisible and bidirectional-control characters.
pub open spec fn without_invisible(s: Seq<char>) -> Seq<char>
    decreases s.len(),
{
    if s.len() == 0 {
        s
    } else {
        let r = without_invisible(s.drop_last());
        if is_invisible(s.last()) {
            r
        } else {
            r.push(s.last())
        }
    }
}

/// Removes invisible and bidirectional-control characters from `s`, so that
/// stored titles and contents match what the query sanitizer produces.
pub fn strip_invisible(s: &str) -> (r: String)
    ensures
        r@ == without_invisible(s@),
{
    let cs = chars_of(s);
    let mut out: Vec<char> = Vec::new();
    for i in 0..cs.len()
        invariant
            out@ == without_invisible(cs@.take(i as int)),
    {
        assert(cs@.take(i + 1).drop_last() == cs@.take(i as int));
        if !is_invisible_unicode(cs[i]) {
            out.push(cs[i]);
        }
    }
    assert(cs@.take(cs.len() as int) == cs@);
    string_from_chars(&out)
}

/// Removing invisible characters leaves none, and removing them again
/// changes nothing.
pub proof fn lemma_strip_invisible_idempotent(s: Seq<char>)
    ensures
        forall|i: int|
            0 <= i < without_invisible(s).len() ==> !is_invisible(#[trigger] without_invisible(s)[i]),
        without_invisible(without_invisible(s)) == without_invisible(s),
    decreases s.len(),
{
    if s.len() > 0 {
        lemma_strip_invisible_idempotent(s.drop_last());
        let r = without_invisible(s.drop_last());
        if !is_invisible(s.last()) {
            let r2 = r.push(s.last());
            assert(r2.drop_last() == r);
            assert forall|i: int| 0 <= i < r2.len() implies !is_invisible(#[trigger] r2[i]) by {
                if i < r.len() {
                    assert(r2[i] == r[i]);
                }
            }
        }
    }
}

/// Exactly the characters U+200B to U+200F, U+FEFF, U+202A to U+202E and
/// U+2066 to U+2069 are removed: none of them is left, and a text without
/// them comes back unchanged.
pub proof fn lemma_strip_invisible_removes_exactly(s: Seq<char>)
    ensures
        forall|i: int|
            #![trigger without_invisible(s)[i]]
            0 <= i < without_invisible(s).len() ==> {
                let u = without_invisible(s)[i] as u32;
                !(0x200B <= u <= 0x200F || u == 0xFEFF || 0x202A <= u <= 0x202E || 0x2066 <= u
                    <= 0x2069)
            },
        (forall|i: int|
            #![trigger s[i]]
            0 <= i < s.len() ==> {
                let u = s[i] as u32;
                !(0x200B <= u <= 0x200F || u == 0xFEFF || 0x202A <= u <= 0x202E || 0x2066 <= u
                    <= 0x2069)
            }) ==> without_invisible(s) == s,
        without_invisible(s).len() <= s.len(),
    decreases s.len(),
{
    if s.len() > 0 {
        let q = s.drop_last();
        lemma_strip_invisible_removes_exactly(q);
        let r = without_invisible(q);
        if !is_invisible(s.last()) {
            let r2 = r.push(s.last());
            assert forall|i: int| #![trigger r2[i]] 0 <= i < r2.len() implies {
                let u = r2[i] as u32;
                !(0x200B <= u <= 0x200F || u == 0xFEFF || 0x202A <= u <= 0x202E || 0x2066 <= u
                    <= 0x2069)
            } by {
                if i < r.len() {
                    assert(r2[i] == r[i]);
                }
            }
        }
        if forall|i: int|
            #![trigger s[i]]
            0 <= i < s.len() ==> {
                let u = s[i] as u32;
                !(0x200B <= u <= 0x200F || u == 0xFEFF || 0x202A <= u <= 0x202E || 0x2066 <= u
                    <= 0x2069)
            } {
            assert forall|i: int| #![trigger q[i]] 0 <= i < q.len() implies {
                let u = q[i] as u32;
                !(0x200B <= u <= 0x200F || u == 0xFEFF || 0x202A <= u <= 0x202E || 0x2066 <= u
                    <= 0x2069)
            } by {
                assert(q[i] == s[i]);
            }
            assert(s[s.len() - 1] == s.last());
            assert(q.push(s.last()) =~= s);
        }
    }
}

} // verus!
