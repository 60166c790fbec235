//! The memory tiers.

use vstd::prelude::*;

use crate::text::chars_of;

verus! {

/// Lifetime class of a memory: short- and mid-term memories expire, long-term
/// memories are permanent.
#[derive(Debug, Clone, Copy, PartialEq, Eq, Structural)]
pub enum Tier {
    Short,
    Mid,
    Long,
}

/// The tier stored under the name `s`.
pub open spec fn tier_of_name(s: Seq<char>) -> Option<Tier> {
    if s == "short"@ {
        Some(Tier::Short)
    } else if s == "mid"@ {
        Some(Tier::Mid)
    } else if s == "long"@ {
        Some(Tier::Long)
    } else {
        None
    }
}

impl Tier {
    /// Place of the tier in the order short < mid < long.
    pub open spec fn rank(self) -> int {
        match self {
            Tier::Short => 0,
            Tier::Mid => 1,
            Tier::Long => 2,
        }
    }

    /// Name under which the tier is stored.
    pub open spec fn name_text(self) -> Seq<char> {
        match self {
            Tier::Short => "short"@,
            Tier::Mid => "mid"@,
            Tier::Long => "long"@,
        }
    }

    /// Name under which the tier is stored.
    pub fn as_str(&self) -> (r: &str)
        ensures
            r@ == self.name_text(),
    {
        match self {
            Tier::Short => "short",
            Tier::Mid => "mid",
            Tier::Long => "long",
        }
    }

    /// Parse a stored tier name.
    pub fn from_str(s: &str) -> (r: Option<Tier>)
        ensures
            r == tier_of_name(s@),
    {
        let cs = chars_of(s);
        if vec_eq(&cs, &chars_of("short")) {
            Some(Tier::Short)
        } else if vec_eq(&cs, &chars_of("mid")) {
            Some(Tier::Mid)
        } else if vec_eq(&cs, &chars_of("long")) {
            Some(Tier::Long)
        } else {
            None
        }
    }
}

fn vec_eq(a: &Vec<char>, b: &Vec<char>) -> (r: bool)
    ensures
        r == (a@ == b@),
{
    if a.len() != b.len() {
        return false;
    }
    for i in 0..a.len()
        invariant
            a.len() == b.len(),
            forall|j: int| 0 <= j < i ==> a@[j] == b@[j],
    {
        if a[i] != b[i] {
            assert(a@[i as int] != b@[i as int]);
            return false;
        }
    }
    assert(a@ =~= b@);
    true
}

/// Parsing the stored name of a tier gives the tier back.
pub proof fn lemma_tier_name_roundtrip(t: Tier)
    ensures
        tier_of_name(t.name_text()) == Some(t),
{
    reveal_strlit("short");
    reveal_strlit("mid");
    reveal_strlit("long");
    assert("short"@.len() == 5 && "mid"@.len() == 3 && "long"@.len() == 4);
}

} // verus!
