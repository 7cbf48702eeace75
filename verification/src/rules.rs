//! The compiled rule set: exact-match tables, wildcard conditions and
//! exceptions, with the profiles they assign.
//!
//! Key/value tables are kept as vectors with unique keys; the conditional
//! table is kept strictly sorted by profile name so that iteration order,
//! and with it the verdict when several profiles could bind, is the same
//! on every load.

use vstd::prelude::*;

use crate::profile::Profile;
use crate::text::{lemma_lex_asymmetric, lemma_lex_total, lemma_lex_transitive, lex_lt, str_eq,
    str_lt};
use crate::wildcard::MatchCondition;

verus! {

/// Conditional assignment: every present field must match.
#[derive(Debug)]
pub struct Condition {
    /// Match by process ancestor name
    pub descends: Option<MatchCondition>,
    /// Match by cgroup
    pub cgroup: Option<MatchCondition>,
    /// Match by process name
    pub name: Option<MatchCondition>,
    /// Match by process parent: any one pattern has to accept it
    pub parent: Vec<MatchCondition>,
}

impl Default for Condition {
    /// A condition with no fields, which constrains nothing.
    fn default() -> (r: Self)
        ensures
            r.descends is None,
            r.cgroup is None,
            r.name is None,
            r.parent@.len() == 0,
    {
        Condition { descends: None, cgroup: None, name: None, parent: Vec::new() }
    }
}

/// One profile of the conditional table, with its ordered keep and
/// drop rules.
#[derive(Debug)]
pub struct ProfileConditions {
    /// The profile's name, the table's sort key
    pub name: String,
    /// The profile that a matching keep rule binds
    pub profile: Profile,
    /// Condition rules in declaration order, each paired with `true` to keep
    pub rules: Vec<(Condition, bool)>,
}

/// Whether `s` holds the pair `(key, value)`.
pub open spec fn kv_has(s: Seq<(String, Profile)>, key: Seq<char>, value: Profile) -> bool {
    exists|i: int| 0 <= i < s.len() && s[i].0@ == key && s[i].1 == value
}

/// Whether `s` holds `key`.
pub open spec fn kv_contains(s: Seq<(String, Profile)>, key: Seq<char>) -> bool {
    exists|i: int| 0 <= i < s.len() && s[i].0@ == key
}

/// The keys of `s` are pairwise distinct.
pub open spec fn kv_unique(s: Seq<(String, Profile)>) -> bool {
    forall|i: int, j: int| 0 <= i < j < s.len() ==> s[i].0@ != s[j].0@
}

/// Whether the string list holds `key`.
pub open spec fn contains_str(s: Seq<String>, key: Seq<char>) -> bool {
    exists|i: int| 0 <= i < s.len() && s[i]@ == key
}

/// The strings of `s` are pairwise distinct.
pub open spec fn strs_unique(s: Seq<String>) -> bool {
    forall|i: int, j: int| 0 <= i < j < s.len() ==> s[i]@ != s[j]@
}

/// The conditional table is strictly sorted by profile name.
pub open spec fn conditions_sorted(s: Seq<ProfileConditions>) -> bool {
    forall|i: int, j: int| 0 <= i < j < s.len() ==> lex_lt(s[i].name@, s[j].name@)
}

/// Process scheduler assignments.
#[derive(Debug)]
pub struct Assignments {
    /// Conditional assignments, sorted by profile name
    pub conditions: Vec<ProfileConditions>,
    /// Exceptions by name
    pub exceptions_by_name: Vec<String>,
    /// Exceptions by cmdline
    pub exceptions_by_cmdline: Vec<String>,
    /// Conditional exceptions
    pub exceptions_conditions: Vec<Condition>,
    /// Assignment profiles
    pub profiles: Vec<(String, Profile)>,
    /// Profiles mapped by name
    pub profile_by_name: Vec<(String, Profile)>,
    /// Profiles mapped by cmdline
    pub profile_by_cmdline: Vec<(String, Profile)>,
}

impl Assignments {
    /// Every table has unique keys and the conditional table is sorted.
    pub open spec fn wf(self) -> bool {
        &&& kv_unique(self.profiles@)
        &&& kv_unique(self.profile_by_name@)
        &&& kv_unique(self.profile_by_cmdline@)
        &&& strs_unique(self.exceptions_by_name@)
        &&& strs_unique(self.exceptions_by_cmdline@)
        &&& conditions_sorted(self.conditions@)
    }

    /// An empty rule set.
    pub fn new() -> (r: Self)
        ensures
            r.wf(),
            r.conditions@.len() == 0,
            r.exceptions_by_name@.len() == 0,
            r.exceptions_by_cmdline@.len() == 0,
            r.exceptions_conditions@.len() == 0,
            r.profiles@.len() == 0,
            r.profile_by_name@.len() == 0,
            r.profile_by_cmdline@.len() == 0,
    {
        Assignments {
            conditions: Vec::new(),
            exceptions_by_name: Vec::new(),
            exceptions_by_cmdline: Vec::new(),
            exceptions_conditions: Vec::new(),
            profiles: Vec::new(),
            profile_by_name: Vec::new(),
            profile_by_cmdline: Vec::new(),
        }
    }

    /// Clears all assignments.
    pub fn clear(&mut self)
        ensures
            final(self).wf(),
            final(self).conditions@.len() == 0,
            final(self).exceptions_by_name@.len() == 0,
            final(self).exceptions_by_cmdline@.len() == 0,
            final(self).exceptions_conditions@.len() == 0,
            final(self).profiles@.len() == 0,
            final(self).profile_by_name@.len() == 0,
            final(self).profile_by_cmdline@.len() == 0,
    {
        self.conditions.clear();
        self.profiles.clear();
        self.profile_by_name.clear();
        self.profile_by_cmdline.clear();
        self.exceptions_by_cmdline.clear();
        self.exceptions_by_name.clear();
        self.exceptions_conditions.clear();
    }

    /// Get a matching profile for a process by its name.
    #[must_use]
    pub fn get_by_name<'a>(&'a self, process: &str) -> (r: Option<&'a Profile>)
        ensures
            (r is Some) == kv_contains(self.profile_by_name@, process@),
            r matches Some(p) ==> kv_has(self.profile_by_name@, process@, *p),
    {
        kv_find(&self.profile_by_name, process)
    }

    /// Get a matching profile for a process by its cmdline.
    #[must_use]
    pub fn get_by_cmdline<'a>(&'a self, process: &str) -> (r: Option<&'a Profile>)
        ensures
            (r is Some) == kv_contains(self.profile_by_cmdline@, process@),
            r matches Some(p) ==> kv_has(self.profile_by_cmdline@, process@, *p),
    {
        kv_find(&self.profile_by_cmdline, process)
    }

    /// Check if a process is excepted by its name.
    #[must_use]
    pub fn is_exception_by_name(&self, name: &str) -> (r: bool)
        ensures
            r == contains_str(self.exceptions_by_name@, name@),
    {
        str_find(&self.exceptions_by_name, name)
    }

    /// Check if a process is excepted by its cmdline.
    #[must_use]
    pub fn is_exception_by_cmdline(&self, name: &str) -> (r: bool)
        ensures
            r == contains_str(self.exceptions_by_cmdline@, name@),
    {
        str_find(&self.exceptions_by_cmdline, name)
    }

    /// Get a profile by the profile's name.
    #[must_use]
    pub fn profile<'a>(&'a self, profile: &str) -> (r: Option<&'a Profile>)
        ensures
            (r is Some) == kv_contains(self.profiles@, profile@),
            r matches Some(p) ==> kv_has(self.profiles@, profile@, *p),
    {
        kv_find(&self.profiles, profile)
    }

    /// Insert a new profile.
    pub fn profile_insert(&mut self, name: String, profile: Profile)
        requires
            old(self).wf(),
        ensures
            final(self).wf(),
            kv_upserted(old(self).profiles@, final(self).profiles@, name, profile),
            final(self).conditions@ == old(self).conditions@,
            final(self).exceptions_by_name@ == old(self).exceptions_by_name@,
            final(self).exceptions_by_cmdline@ == old(self).exceptions_by_cmdline@,
            final(self).exceptions_conditions@ == old(self).exceptions_conditions@,
            final(self).profile_by_name@ == old(self).profile_by_name@,
            final(self).profile_by_cmdline@ == old(self).profile_by_cmdline@,
    {
        kv_upsert(&mut self.profiles, name, profile);
    }

    /// Assign a process to a profile by the process's name.
    pub fn assign_by_name(&mut self, name: &str, profile: Profile)
        requires
            old(self).wf(),
        ensures
            final(self).wf(),
            kv_upserted_key(old(self).profile_by_name@, final(self).profile_by_name@, name@, profile),
            final(self).conditions@ == old(self).conditions@,
            final(self).exceptions_by_name@ == old(self).exceptions_by_name@,
            final(self).exceptions_by_cmdline@ == old(self).exceptions_by_cmdline@,
            final(self).exceptions_conditions@ == old(self).exceptions_conditions@,
            final(self).profiles@ == old(self).profiles@,
            final(self).profile_by_cmdline@ == old(self).profile_by_cmdline@,
    {
        kv_upsert(&mut self.profile_by_name, name.to_owned(), profile);
    }

    /// Assign a process to a profile by the process's cmdline.
    pub fn assign_by_cmdline(&mut self, name: &str, profile: Profile)
        requires
            old(self).wf(),
        ensures
            final(self).wf(),
            kv_upserted_key(old(self).profile_by_cmdline@, final(self).profile_by_cmdline@, name@, profile),
            final(self).conditions@ == old(self).conditions@,
            final(self).exceptions_by_name@ == old(self).exceptions_by_name@,
            final(self).exceptions_by_cmdline@ == old(self).exceptions_by_cmdline@,
            final(self).exceptions_conditions@ == old(self).exceptions_conditions@,
            final(self).profiles@ == old(self).profiles@,
            final(self).profile_by_name@ == old(self).profile_by_name@,
    {
        kv_upsert(&mut self.profile_by_cmdline, name.to_owned(), profile);
    }

    /// Assign a process as an exception by its cmdline.
    pub fn assign_exception_by_cmdline(&mut self, name: &str)
        requires
            old(self).wf(),
        ensures
            final(self).wf(),
            str_inserted(old(self).exceptions_by_cmdline@, final(self).exceptions_by_cmdline@, name@),
            final(self).conditions@ == old(self).conditions@,
            final(self).exceptions_by_name@ == old(self).exceptions_by_name@,
            final(self).exceptions_conditions@ == old(self).exceptions_conditions@,
            final(self).profiles@ == old(self).profiles@,
            final(self).profile_by_name@ == old(self).profile_by_name@,
            final(self).profile_by_cmdline@ == old(self).profile_by_cmdline@,
    {
        str_insert(&mut self.exceptions_by_cmdline, name);
    }

    /// Assign a process as an exception by its name.
    pub fn assign_exception_by_name(&mut self, name: &str)
        requires
            old(self).wf(),
        ensures
            final(self).wf(),
            str_inserted(old(self).exceptions_by_name@, final(self).exceptions_by_name@, name@),
            final(self).conditions@ == old(self).conditions@,
            final(self).exceptions_by_cmdline@ == old(self).exceptions_by_cmdline@,
            final(self).exceptions_conditions@ == old(self).exceptions_conditions@,
            final(self).profiles@ == old(self).profiles@,
            final(self).profile_by_name@ == old(self).profile_by_name@,
            final(self).profile_by_cmdline@ == old(self).profile_by_cmdline@,
    {
        str_insert(&mut self.exceptions_by_name, name);
    }

    /// Assign a condition as an exception.
    pub fn assign_exception_by_condition(&mut self, condition: Condition)
        requires
            old(self).wf(),
        ensures
            final(self).wf(),
            final(self).exceptions_conditions@ == old(self).exceptions_conditions@.push(condition),
            final(self).conditions@ == old(self).conditions@,
            final(self).exceptions_by_name@ == old(self).exceptions_by_name@,
            final(self).exceptions_by_cmdline@ == old(self).exceptions_by_cmdline@,
            final(self).profiles@ == old(self).profiles@,
            final(self).profile_by_name@ == old(self).profile_by_name@,
            final(self).profile_by_cmdline@ == old(self).profile_by_cmdline@,
    {
        self.exceptions_conditions.push(condition);
    }

    /// Removes a profile from the profile table by its name.
    pub fn profile_remove(&mut self, name: &str) -> (r: Option<Profile>)
        requires
            old(self).wf(),
        ensures
            final(self).wf(),
            kv_removed_key(old(self).profiles@, final(self).profiles@, name@),
            (r is Some) == kv_contains(old(self).profiles@, name@),
            r matches Some(p) ==> kv_has(old(self).profiles@, name@, p),
            final(self).conditions@ == old(self).conditions@,
            final(self).exceptions_by_name@ == old(self).exceptions_by_name@,
            final(self).exceptions_by_cmdline@ == old(self).exceptions_by_cmdline@,
            final(self).exceptions_conditions@ == old(self).exceptions_conditions@,
            final(self).profile_by_name@ == old(self).profile_by_name@,
            final(self).profile_by_cmdline@ == old(self).profile_by_cmdline@,
    {
        kv_remove(&mut self.profiles, name)
    }

    /// Assign a condition to a profile.  The first condition for a profile
    /// name brings the profile; later ones only append their rule.
    pub fn assign_by_condition(&mut self, name: &str, condition: Condition, profile: Profile, included: bool)
        requires
            old(self).wf(),
        ensures
            final(self).wf(),
            condition_appended(old(self).conditions@, final(self).conditions@, name@, condition, profile, included),
            final(self).exceptions_by_name@ == old(self).exceptions_by_name@,
            final(self).exceptions_by_cmdline@ == old(self).exceptions_by_cmdline@,
            final(self).exceptions_conditions@ == old(self).exceptions_conditions@,
            final(self).profiles@ == old(self).profiles@,
            final(self).profile_by_name@ == old(self).profile_by_name@,
            final(self).profile_by_cmdline@ == old(self).profile_by_cmdline@,
    {
        let ghost self0 = *self;
        let ghost old_c = self.conditions@;
        let len = self.conditions.len();
        let mut i: usize = 0;
        while i < len
            invariant
                len == self.conditions@.len(),
                i <= len,
                *self == self0,
                self.conditions@ == old_c,
                conditions_sorted(old_c),
                forall|j: int| 0 <= j < i ==> old_c[j].name@ != name@,
                forall|j: int| 0 <= j < i ==> lex_lt(old_c[j].name@, name@),
            decreases len - i,
        {
            if str_eq(self.conditions[i].name.as_str(), name) {
                let mut entry = self.conditions.remove(i);
                proof {
                    old_c.remove_ensures(i as int);
                }
                let ghost mid = self.conditions@;
                entry.rules.push((condition, included));
                let ghost updated = entry;
                self.conditions.insert(i, entry);
                proof {
                    mid.insert_ensures(i as int, updated);
                    assert(self.conditions@.len() == old_c.len());
                    assert forall|j: int| 0 <= j < old_c.len() && j != i implies self.conditions@[j]
                        == old_c[j] by {
                        if j < i {
                            assert(self.conditions@[j] == mid[j]);
                        } else {
                            assert(self.conditions@[(j - 1) + 1] == mid[j - 1]);
                            assert(mid[j - 1] == old_c[(j - 1) + 1]);
                        }
                    }
                    assert(self.conditions@[i as int] == updated);
                    assert(updated.name == old_c[i as int].name);
                    assert(forall|j: int|
                        0 <= j < old_c.len() ==> self.conditions@[j].name@ == old_c[j].name@);
                    assert(conditions_sorted(self.conditions@));
                    assert(kv_name_present(old_c, name@));
                }
                return;
            }
            proof {
                lemma_lex_total(old_c[i as int].name@, name@);
                if lex_lt(name@, old_c[i as int].name@) {
                    assert forall|j: int| i <= j < old_c.len() implies lex_lt(
                        name@,
                        old_c[j].name@,
                    ) by {
                        if j > i {
                            lemma_lex_transitive(name@, old_c[i as int].name@, old_c[j].name@);
                        }
                    }
                }
            }
            if str_lt(name, self.conditions[i].name.as_str()) {
                let entry = new_profile_conditions(name, condition, profile, included);
                let ghost eg = entry;
                self.conditions.insert(i, entry);
                proof {
                    old_c.insert_ensures(i as int, eg);
                    assert(forall|j: int| 0 <= j < i ==> self.conditions@[j] == old_c[j]);
                    assert forall|j: int| i < j < self.conditions@.len() implies self.conditions@[j]
                        == old_c[j - 1] by {
                        assert(self.conditions@[(j - 1) + 1] == old_c[j - 1]);
                    }
                    assert(self.conditions@[i as int] == eg);
                    assert forall|j: int| 0 <= j < old_c.len() implies old_c[j].name@ != name@ by {
                        if j >= i {
                            lemma_lex_asymmetric(name@, old_c[j].name@);
                        }
                    }
                    assert(!kv_name_present(old_c, name@));
                    assert forall|k: int, l: int|
                        0 <= k < l < self.conditions@.len() implies lex_lt(
                        self.conditions@[k].name@,
                        self.conditions@[l].name@,
                    ) by {
                        if k < i && l == i {
                            assert(lex_lt(old_c[k].name@, name@));
                        } else if k == i && l > i {
                            assert(lex_lt(name@, old_c[l - 1].name@));
                        }
                    }
                    assert(conditions_sorted(self.conditions@));
                }
                return;
            }
            i = i + 1;
        }
        let entry = new_profile_conditions(name, condition, profile, included);
        let ghost eg = entry;
        self.conditions.push(entry);
        proof {
            assert(self.conditions@ == old_c.push(eg));
            assert forall|j: int| 0 <= j < old_c.len() implies old_c[j].name@ != name@ by {
                lemma_lex_asymmetric(old_c[j].name@, name@);
            }
            assert(!kv_name_present(old_c, name@));
            assert forall|k: int, l: int|
                0 <= k < l < self.conditions@.len() implies lex_lt(
                self.conditions@[k].name@,
                self.conditions@[l].name@,
            ) by {
                if l == old_c.len() {
                    assert(self.conditions@[k] == old_c[k]);
                    assert(lex_lt(old_c[k].name@, name@));
                }
            }
            assert(conditions_sorted(self.conditions@));
            assert(forall|j: int| 0 <= j < old_c.len() ==> self.conditions@[j] == old_c[j]);
            let ghost p = old_c.len() as int;
            assert(0 <= p <= old_c.len() && (forall|j: int| 0 <= j < p ==> self.conditions@[j]
                == old_c[j]) && (forall|j: int|
                p < j < self.conditions@.len() ==> self.conditions@[j] == old_c[j - 1])
                && self.conditions@[p].name@ == name@ && self.conditions@[p].profile == profile
                && self.conditions@[p].rules@.len() == 1 && self.conditions@[p].rules@[0] == (
            condition,
            included,
            ));
            assert(condition_appended(old_c, self.conditions@, name@, condition, profile, included));
        }
    }
}

/// Whether some entry of the conditional table carries `name`.
pub open spec fn kv_name_present(s: Seq<ProfileConditions>, name: Seq<char>) -> bool {
    exists|i: int| 0 <= i < s.len() && s[i].name@ == name
}

/// How `assign_by_condition` changes the conditional table: the rule is
/// appended to the entry named `name`, which is created with `profile` if
/// it was absent.
pub open spec fn condition_appended(
    old_c: Seq<ProfileConditions>,
    new_c: Seq<ProfileConditions>,
    name: Seq<char>,
    condition: Condition,
    profile: Profile,
    included: bool,
) -> bool {
    if kv_name_present(old_c, name) {
        &&& new_c.len() == old_c.len()
        &&& exists|i: int|
            0 <= i < old_c.len() && old_c[i].name@ == name
                && (forall|j: int| 0 <= j < old_c.len() && j != i ==> new_c[j] == old_c[j])
                && new_c[i].name == old_c[i].name && new_c[i].profile == old_c[i].profile
                && new_c[i].rules@ == old_c[i].rules@.push((condition, included))
    } else {
        &&& new_c.len() == old_c.len() + 1
        &&& exists|p: int|
            0 <= p <= old_c.len() && (forall|j: int| 0 <= j < p ==> new_c[j] == old_c[j]) && (
            forall|j: int| p < j < new_c.len() ==> new_c[j] == old_c[j - 1]) && new_c[p].name@
                == name && new_c[p].profile == profile && new_c[p].rules@.len() == 1
                && new_c[p].rules@[0] == (condition, included)
    }
}

/// Builds a fresh conditional entry with a single rule.
fn new_profile_conditions(name: &str, condition: Condition, profile: Profile, included: bool) -> (r:
    ProfileConditions)
    ensures
        r.name@ == name@,
        r.profile == profile,
        r.rules@.len() == 1,
        r.rules@[0] == (condition, included),
{
    let mut rules: Vec<(Condition, bool)> = Vec::new();
    rules.push((condition, included));
    ProfileConditions { name: name.to_owned(), profile, rules }
}

/// How an upsert with an owned key changes a table.
pub open spec fn kv_upserted(
    old_s: Seq<(String, Profile)>,
    new_s: Seq<(String, Profile)>,
    name: String,
    profile: Profile,
) -> bool {
    kv_upserted_key(old_s, new_s, name@, profile)
}

/// How an upsert changes a table: the pair replaces the entry with the
/// same key, or is appended when the key is new.
pub open spec fn kv_upserted_key(
    old_s: Seq<(String, Profile)>,
    new_s: Seq<(String, Profile)>,
    key: Seq<char>,
    profile: Profile,
) -> bool {
    if kv_contains(old_s, key) {
        &&& new_s.len() == old_s.len()
        &&& exists|i: int|
            0 <= i < old_s.len() && old_s[i].0@ == key
                && (forall|j: int| 0 <= j < old_s.len() && j != i ==> new_s[j] == old_s[j])
                && new_s[i].0@ == key && new_s[i].1 == profile
    } else {
        &&& new_s.len() == old_s.len() + 1
        &&& forall|j: int| 0 <= j < old_s.len() ==> new_s[j] == old_s[j]
        &&& new_s[old_s.len() as int].0@ == key
        &&& new_s[old_s.len() as int].1 == profile
    }
}

/// Finds the value stored under `key`, if any.
fn kv_find<'a>(s: &'a Vec<(String, Profile)>, key: &str) -> (r: Option<&'a Profile>)
    ensures
        (r is Some) == kv_contains(s@, key@),
        r matches Some(p) ==> kv_has(s@, key@, *p),
{
    let mut i: usize = 0;
    let len = s.len();
    while i < len
        invariant
            i <= len,
            len == s@.len(),
            forall|j: int| 0 <= j < i ==> s@[j].0@ != key@,
        decreases len - i,
    {
        if str_eq(s[i].0.as_str(), key) {
            return Some(&s[i].1);
        }
        i = i + 1;
    }
    None
}

/// Replaces the value stored under the key, or appends the pair.
fn kv_upsert(s: &mut Vec<(String, Profile)>, name: String, profile: Profile)
    requires
        kv_unique(old(s)@),
    ensures
        kv_unique(final(s)@),
        kv_upserted(old(s)@, final(s)@, name, profile),
{
    let ghost old_s = s@;
    let ghost key = name@;
    let mut i: usize = 0;
    let len = s.len();
    while i < len
        invariant
            i <= len,
            len == s@.len(),
            s@ == old_s,
            kv_unique(old_s),
            forall|j: int| 0 <= j < i ==> old_s[j].0@ != key,
        decreases len - i,
    {
        if str_eq(s[i].0.as_str(), name.as_str()) {
            let ghost ii = i as int;
            s.set(i, (name, profile));
            proof {
                assert(s@[ii] == (name, profile));
                assert(s@.len() == old_s.len());
                assert(forall|j: int| 0 <= j < old_s.len() && j != ii ==> s@[j] == old_s[j]);
                assert(kv_unique(s@));
                assert(0 <= ii < old_s.len() && old_s[ii].0@ == key && (forall|j: int|
                    0 <= j < old_s.len() && j != ii ==> s@[j] == old_s[j]) && s@[ii].0@ == key
                    && s@[ii].1 == profile);
                assert(kv_upserted(old_s, s@, name, profile));
            }
            return;
        }
        i = i + 1;
    }
    s.push((name, profile));
    proof {
        assert(forall|j: int| 0 <= j < old_s.len() ==> s@[j] == old_s[j]);
        assert(kv_unique(s@));
    }
}

/// Whether the list holds `key`.
fn str_find(s: &Vec<String>, key: &str) -> (r: bool)
    ensures
        r == contains_str(s@, key@),
{
    let mut i: usize = 0;
    let len = s.len();
    while i < len
        invariant
            i <= len,
            len == s@.len(),
            forall|j: int| 0 <= j < i ==> s@[j]@ != key@,
        decreases len - i,
    {
        if str_eq(s[i].as_str(), key) {
            return true;
        }
        i = i + 1;
    }
    false
}

/// How a set-like insert changes a string list: unchanged when present,
/// appended when absent.
pub open spec fn str_inserted(old_s: Seq<String>, new_s: Seq<String>, key: Seq<char>) -> bool {
    if contains_str(old_s, key) {
        new_s == old_s
    } else {
        &&& new_s.len() == old_s.len() + 1
        &&& forall|j: int| 0 <= j < old_s.len() ==> new_s[j] == old_s[j]
        &&& new_s[old_s.len() as int]@ == key
    }
}

/// Appends `key` unless it is already present.
fn str_insert(s: &mut Vec<String>, key: &str)
    requires
        strs_unique(old(s)@),
    ensures
        strs_unique(final(s)@),
        str_inserted(old(s)@, final(s)@, key@),
{
    if !str_find(s, key) {
        s.push(key.to_owned());
    }
}

/// How a removal changes a table: the key is gone and every other pair
/// is untouched.
pub open spec fn kv_removed_key(
    old_s: Seq<(String, Profile)>,
    new_s: Seq<(String, Profile)>,
    key: Seq<char>,
) -> bool {
    &&& !kv_contains(new_s, key)
    &&& forall|k: Seq<char>|
        k != key ==> (#[trigger] kv_contains(new_s, k)) == kv_contains(old_s, k)
    &&& forall|k: Seq<char>, v: Profile|
        k != key ==> (#[trigger] kv_has(new_s, k, v)) == kv_has(old_s, k, v)
}

/// Removes the pair stored under `key`, returning its value.
fn kv_remove(s: &mut Vec<(String, Profile)>, key: &str) -> (r: Option<Profile>)
    requires
        kv_unique(old(s)@),
    ensures
        kv_unique(final(s)@),
        kv_removed_key(old(s)@, final(s)@, key@),
        (r is Some) == kv_contains(old(s)@, key@),
        r matches Some(p) ==> kv_has(old(s)@, key@, p),
{
    let ghost old_s = s@;
    let len = s.len();
    let mut i: usize = 0;
    while i < len
        invariant
            i <= len,
            len == s@.len(),
            s@ == old_s,
            kv_unique(old_s),
            forall|j: int| 0 <= j < i ==> old_s[j].0@ != key@,
        decreases len - i,
    {
        if str_eq(s[i].0.as_str(), key) {
            let entry = s.remove(i);
            proof {
                old_s.remove_ensures(i as int);
                assert forall|a: int, b: int| 0 <= a < b < s@.len() implies s@[a].0@
                    != s@[b].0@ by {
                    let a0: int = if a < i { a } else { a + 1 };
                    let b0: int = if b < i { b } else { b + 1 };
                    assert(s@[a] == old_s[a0]);
                    assert(s@[b] == old_s[b0]);
                }
                assert(!kv_contains(s@, key@)) by {
                    if kv_contains(s@, key@) {
                        let m = choose|m: int| 0 <= m < s@.len() && s@[m].0@ == key@;
                        let m0: int = if m < i { m } else { m + 1 };
                        assert(s@[m] == old_s[m0]);
                        assert(m0 != i);
                    }
                }
                assert forall|k: Seq<char>|
                    k != key@ implies (#[trigger] kv_contains(s@, k)) == kv_contains(
                    old_s,
                    k,
                ) by {
                    if kv_contains(old_s, k) {
                        let m = choose|m: int| 0 <= m < old_s.len() && old_s[m].0@ == k;
                        assert(m != i);
                        if m < i {
                            assert(s@[m].0@ == k);
                        } else {
                            assert(s@[m - 1] == old_s[m]);
                        }
                        assert(kv_contains(s@, k));
                    }
                }
                assert forall|k: Seq<char>, v: Profile|
                    k != key@ implies (#[trigger] kv_has(s@, k, v)) == kv_has(old_s, k, v) by {
                    if kv_has(old_s, k, v) {
                        let m = choose|m: int|
                            0 <= m < old_s.len() && old_s[m].0@ == k && old_s[m].1 == v;
                        assert(m != i);
                        if m < i {
                            assert(s@[m] == old_s[m]);
                        } else {
                            assert(s@[m - 1] == old_s[m]);
                        }
                        assert(kv_has(s@, k, v));
                    }
                    if kv_has(s@, k, v) {
                        let m = choose|m: int|
                            0 <= m < s@.len() && s@[m].0@ == k && s@[m].1 == v;
                        let m0: int = if m < i { m } else { m + 1 };
                        assert(s@[m] == old_s[m0]);
                        assert(kv_has(old_s, k, v));
                    }
                }
            }
            return Some(entry.1);
        }
        i = i + 1;
    }
    None
}

} // verus!
