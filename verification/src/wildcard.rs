//! Wildcard string matching for rule conditions.
//!
//! A pattern is matched character by character; `*` stands for any run of
//! characters (including none) and `?` for exactly one.  A condition built
//! from a pattern with a leading `!` accepts exactly the strings the bare
//! pattern rejects.

use vstd::prelude::*;

verus! {

/// What it means for pattern `p` to match the whole of `s`.
pub open spec fn wild_matches(p: Seq<char>, s: Seq<char>) -> bool
    decreases p.len(), s.len(),
{
    if p.len() == 0 {
        s.len() == 0
    } else if p[0] == '*' {
        wild_matches(p.skip(1), s) || (s.len() > 0 && wild_matches(p, s.skip(1)))
    } else if s.len() == 0 {
        false
    } else {
        (p[0] == '?' || p[0] == s[0]) && wild_matches(p.skip(1), s.skip(1))
    }
}

/// Decides `wild_matches` on the suffixes of `p` and `s` that start at `i`
/// and `j`.
fn wild_match_at(p: &str, s: &str, p_len: usize, s_len: usize, i: usize, j: usize) -> (r: bool)
    requires
        p_len == p@.len(),
        s_len == s@.len(),
        i <= p_len,
        j <= s_len,
    ensures
        r == wild_matches(p@.skip(i as int), s@.skip(j as int)),
    decreases p_len - i, s_len - j,
{
    if i == p_len {
        proof {
            assert(p@.skip(i as int).len() == 0);
            assert(s@.skip(j as int).len() == s_len - j);
        }
        j == s_len
    } else {
        let pc = p.get_char(i);
        proof {
            assert(p@.skip(i as int)[0] == p@[i as int]);
            assert(p@.skip(i as int).skip(1) =~= p@.skip(i + 1 as int));
        }
        if pc == '*' {
            if wild_match_at(p, s, p_len, s_len, i + 1, j) {
                true
            } else if j < s_len {
                proof {
                    assert(s@.skip(j as int).skip(1) =~= s@.skip(j + 1 as int));
                }
                wild_match_at(p, s, p_len, s_len, i, j + 1)
            } else {
                false
            }
        } else if j == s_len {
            false
        } else {
            let sc = s.get_char(j);
            proof {
                assert(s@.skip(j as int)[0] == s@[j as int]);
                assert(s@.skip(j as int).skip(1) =~= s@.skip(j + 1 as int));
            }
            if pc == '?' || pc == sc {
                wild_match_at(p, s, p_len, s_len, i + 1, j + 1)
            } else {
                false
            }
        }
    }
}

/// Whether pattern `p` matches the whole of `s`.
pub fn wild_match(p: &str, s: &str) -> (r: bool)
    ensures
        r == wild_matches(p@, s@),
{
    let p_len = p.unicode_len();
    let s_len = s.unicode_len();
    let r = wild_match_at(p, s, p_len, s_len, 0, 0);
    proof {
        assert(p@.skip(0) =~= p@);
        assert(s@.skip(0) =~= s@);
    }
    r
}

/// A wildcard string match which either is or isn't.
#[must_use]
#[derive(Debug)]
pub enum MatchCondition {
    /// Is a match for the wildcard
    Is(String),
    /// Is not a match for the wildcard
    IsNot(String),
}

impl Clone for MatchCondition {
    fn clone(&self) -> (r: Self)
        ensures
            r == *self,
    {
        match self {
            MatchCondition::Is(p) => MatchCondition::Is(p.clone()),
            MatchCondition::IsNot(p) => MatchCondition::IsNot(p.clone()),
        }
    }
}

impl MatchCondition {
    /// Whether this condition accepts `input`.
    pub open spec fn spec_matches(self, input: Seq<char>) -> bool {
        match self {
            MatchCondition::Is(p) => wild_matches(p@, input),
            MatchCondition::IsNot(p) => !wild_matches(p@, input),
        }
    }

    /// Parses a `MatchCondition`: a leading `!` negates the pattern.
    pub fn new(input: &str) -> (r: Self)
        ensures
            (if input@.len() > 0 && input@[0] == '!' {
                r matches MatchCondition::IsNot(p) && p@ == input@.skip(1)
            } else {
                r matches MatchCondition::Is(p) && p@ == input@
            }),
    {
        let len = input.unicode_len();
        if len > 0 && input.get_char(0) == '!' {
            let rest = input.substring_char(1, len);
            proof {
                assert(rest@ =~= input@.skip(1));
            }
            MatchCondition::IsNot(rest.to_owned())
        } else {
            MatchCondition::Is(input.to_owned())
        }
    }

    /// Identifies if the input is a match for the condition.
    #[must_use]
    pub fn matches(&self, input: &str) -> (r: bool)
        ensures
            r == self.spec_matches(input@),
    {
        match self {
            MatchCondition::Is(p) => wild_match(p.as_str(), input),
            MatchCondition::IsNot(p) => !wild_match(p.as_str(), input),
        }
    }
}

/// A pattern without `*` or `?` matches exactly itself.
pub proof fn lemma_literal_pattern(p: Seq<char>, s: Seq<char>)
    requires
        forall|k: int| 0 <= k < p.len() ==> p[k] != '*' && p[k] != '?',
    ensures
        wild_matches(p, s) <==> p == s,
    decreases p.len(),
{
    if p.len() == 0 {
        if s.len() == 0 {
            assert(p =~= s);
        }
    } else {
        if s.len() == 0 {
            assert(p != s) by {
                assert(p.len() != s.len());
            }
        } else {
            lemma_literal_pattern(p.skip(1), s.skip(1));
            if p[0] == s[0] && p.skip(1) == s.skip(1) {
                assert(p =~= s) by {
                    assert(forall|k: int|
                        1 <= k < p.len() ==> p[k] == p.skip(1)[k - 1] && s[k] == s.skip(1)[k - 1]);
                }
            }
            if p == s {
                assert(p[0] == s[0]);
                assert(p.skip(1) == s.skip(1));
            }
        }
    }
}

/// A condition built from `!` and a wildcard-free pattern accepts exactly
/// the inputs that differ from that pattern.
pub proof fn lemma_negated_literal_condition(c: MatchCondition, p: String, input: Seq<char>)
    requires
        c == MatchCondition::IsNot(p),
        forall|k: int| 0 <= k < p@.len() ==> p@[k] != '*' && p@[k] != '?',
    ensures
        c.spec_matches(input) <==> input != p@,
{
    lemma_literal_pattern(p@, input);
}

} // verus!
