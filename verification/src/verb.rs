//! The relationship verbs that a rule reference can carry.

use vstd::prelude::*;

verus! {

/// The relationship between a piece of code and a spec rule.
#[derive(Debug, Clone, Copy, PartialEq, Eq, Hash, Structural)]
pub enum RefVerb {
    /// Where the requirement is defined (typically in specs/docs).
    Define,
    /// Code that fulfills/implements the requirement.
    Impl,
    /// Tests that verify the implementation matches the spec.
    Verify,
    /// Strict dependency: must recheck if the referenced rule changes.
    Depends,
    /// Loose connection: show when reviewing.
    Related,
}

/// The canonical lowercase spelling of a verb, as it appears both in source
/// syntax and in output.
pub open spec fn verb_chars(v: RefVerb) -> Seq<char> {
    match v {
        RefVerb::Define => "define"@,
        RefVerb::Impl => "impl"@,
        RefVerb::Verify => "verify"@,
        RefVerb::Depends => "depends"@,
        RefVerb::Related => "related"@,
    }
}

/// True iff `s` is the spelling of some verb.
pub open spec fn is_verb_chars(s: Seq<char>) -> bool {
    exists|v: RefVerb| verb_chars(v) == s
}

/// The verb spelled `s`, if any.
pub open spec fn verb_of_chars(s: Seq<char>) -> RefVerb
    recommends
        is_verb_chars(s),
{
    choose|v: RefVerb| verb_chars(v) == s
}

/// Distinct verbs have distinct spellings.
pub proof fn lemma_verb_chars_injective(v1: RefVerb, v2: RefVerb)
    requires
        verb_chars(v1) == verb_chars(v2),
    ensures
        v1 == v2,
{
    reveal_strlit("define");
    reveal_strlit("impl");
    reveal_strlit("verify");
    reveal_strlit("depends");
    reveal_strlit("related");
    if v1 != v2 {
        match v1 {
            RefVerb::Define => {
                match v2 {
                    RefVerb::Define => {},
                    RefVerb::Impl => {
                        assert(verb_chars(v1) == "define"@);
                        assert(verb_chars(v2) == "impl"@);
                        assert("define"@.len() == 6);
                        assert("impl"@.len() == 4);
                    },
                    RefVerb::Verify => {
                        assert(verb_chars(v1) == "define"@);
                        assert(verb_chars(v2) == "verify"@);
                        assert("define"@[0] == 'd');
                        assert("verify"@[0] == 'v');
                    },
                    RefVerb::Depends => {
                        assert(verb_chars(v1) == "define"@);
                        assert(verb_chars(v2) == "depends"@);
                        assert("define"@.len() == 6);
                        assert("depends"@.len() == 7);
                    },
                    RefVerb::Related => {
                        assert(verb_chars(v1) == "define"@);
                        assert(verb_chars(v2) == "related"@);
                        assert("define"@.len() == 6);
                        assert("related"@.len() == 7);
                    },
                }
            },
            RefVerb::Impl => {
                match v2 {
                    RefVerb::Define => {
                        assert(verb_chars(v1) == "impl"@);
                        assert(verb_chars(v2) == "define"@);
                        assert("impl"@.len() == 4);
                        assert("define"@.len() == 6);
                    },
                    RefVerb::Impl => {},
                    RefVerb::Verify => {
                        assert(verb_chars(v1) == "impl"@);
                        assert(verb_chars(v2) == "verify"@);
                        assert("impl"@.len() == 4);
                        assert("verify"@.len() == 6);
                    },
                    RefVerb::Depends => {
                        assert(verb_chars(v1) == "impl"@);
                        assert(verb_chars(v2) == "depends"@);
                        assert("impl"@.len() == 4);
                        assert("depends"@.len() == 7);
                    },
                    RefVerb::Related => {
                        assert(verb_chars(v1) == "impl"@);
                        assert(verb_chars(v2) == "related"@);
                        assert("impl"@.len() == 4);
                        assert("related"@.len() == 7);
                    },
                }
            },
            RefVerb::Verify => {
                match v2 {
                    RefVerb::Define => {
                        assert(verb_chars(v1) == "verify"@);
                        assert(verb_chars(v2) == "define"@);
                        assert("verify"@[0] == 'v');
                        assert("define"@[0] == 'd');
                    },
                    RefVerb::Impl => {
                        assert(verb_chars(v1) == "verify"@);
                        assert(verb_chars(v2) == "impl"@);
                        assert("verify"@.len() == 6);
                        assert("impl"@.len() == 4);
                    },
                    RefVerb::Verify => {},
                    RefVerb::Depends => {
                        assert(verb_chars(v1) == "verify"@);
                        assert(verb_chars(v2) == "depends"@);
                        assert("verify"@.len() == 6);
                        assert("depends"@.len() == 7);
                    },
                    RefVerb::Related => {
                        assert(verb_chars(v1) == "verify"@);
                        assert(verb_chars(v2) == "related"@);
                        assert("verify"@.len() == 6);
                        assert("related"@.len() == 7);
                    },
                }
            },
            RefVerb::Depends => {
                match v2 {
                    RefVerb::Define => {
                        assert(verb_chars(v1) == "depends"@);
                        assert(verb_chars(v2) == "define"@);
                        assert("depends"@.len() == 7);
                        assert("define"@.len() == 6);
                    },
                    RefVerb::Impl => {
                        assert(verb_chars(v1) == "depends"@);
                        assert(verb_chars(v2) == "impl"@);
                        assert("depends"@.len() == 7);
                        assert("impl"@.len() == 4);
                    },
                    RefVerb::Verify => {
                        assert(verb_chars(v1) == "depends"@);
                        assert(verb_chars(v2) == "verify"@);
                        assert("depends"@.len() == 7);
                        assert("verify"@.len() == 6);
                    },
                    RefVerb::Depends => {},
                    RefVerb::Related => {
                        assert(verb_chars(v1) == "depends"@);
                        assert(verb_chars(v2) == "related"@);
                        assert("depends"@[0] == 'd');
                        assert("related"@[0] == 'r');
                    },
                }
            },
            RefVerb::Related => {
                match v2 {
                    RefVerb::Define => {
                        assert(verb_chars(v1) == "related"@);
                        assert(verb_chars(v2) == "define"@);
                        assert("related"@.len() == 7);
                        assert("define"@.len() == 6);
                    },
                    RefVerb::Impl => {
                        assert(verb_chars(v1) == "related"@);
                        assert(verb_chars(v2) == "impl"@);
                        assert("related"@.len() == 7);
                        assert("impl"@.len() == 4);
                    },
                    RefVerb::Verify => {
                        assert(verb_chars(v1) == "related"@);
                        assert(verb_chars(v2) == "verify"@);
                        assert("related"@.len() == 7);
                        assert("verify"@.len() == 6);
                    },
                    RefVerb::Depends => {
                        assert(verb_chars(v1) == "related"@);
                        assert(verb_chars(v2) == "depends"@);
                        assert("related"@[0] == 'r');
                        assert("depends"@[0] == 'd');
                    },
                    RefVerb::Related => {},
                }
            },
        }
    }
}

impl RefVerb {
    /// Parse a verb from its string representation.
    pub fn from_str(s: &str) -> (r: Option<RefVerb>)
        ensures
            match r {
                Some(v) => verb_chars(v) == s@,
                None => !is_verb_chars(s@),
            },
    {
        proof {
            reveal_strlit("define");
            reveal_strlit("impl");
            reveal_strlit("verify");
            reveal_strlit("depends");
            reveal_strlit("related");
        }
        if str_eq(s, "define") {
            Some(RefVerb::Define)
        } else if str_eq(s, "impl") {
            Some(RefVerb::Impl)
        } else if str_eq(s, "verify") {
            Some(RefVerb::Verify)
        } else if str_eq(s, "depends") {
            Some(RefVerb::Depends)
        } else if str_eq(s, "related") {
            Some(RefVerb::Related)
        } else {
            proof {
                assert forall|v: RefVerb| verb_chars(v) != s@ by {
                    match v {
                        RefVerb::Define => assert(verb_chars(v) == "define"@),
                        RefVerb::Impl => assert(verb_chars(v) == "impl"@),
                        RefVerb::Verify => assert(verb_chars(v) == "verify"@),
                        RefVerb::Depends => assert(verb_chars(v) == "depends"@),
                        RefVerb::Related => assert(verb_chars(v) == "related"@),
                    }
                }
            }
            None
        }
    }

    /// The string representation of this verb.
    pub fn as_str(&self) -> (r: &'static str)
        ensures
            r@ == verb_chars(*self),
    {
        match self {
            RefVerb::Define => "define",
            RefVerb::Impl => "impl",
            RefVerb::Verify => "verify",
            RefVerb::Depends => "depends",
            RefVerb::Related => "related",
        }
    }
}

/// Character-by-character equality of two string slices.
pub fn str_eq(a: &str, b: &str) -> (r: bool)
    ensures
        r == (a@ == b@),
{
    let a_len = a.unicode_len();
    let b_len = b.unicode_len();
    if a_len != b_len {
        assert(a@ != b@);
        return false;
    }
    let mut i: usize = 0;
    while i < a_len
        invariant
            i <= a_len,
            a_len == a@.len(),
            a_len == b@.len(),
            forall|j: int| 0 <= j < i ==> a@[j] == b@[j],
        decreases a_len - i,
    {
        if a.get_char(i) != b.get_char(i) {
            assert(a@ != b@);
            return false;
        }
        i = i + 1;
    }
    assert(a@ =~= b@);
    true
}

} // verus!
