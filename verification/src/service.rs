//! The scheduling service: verdicts, overlays and event handling.

use vstd::prelude::*;

use crate::process::{ancestor_pids, chain_pids, contains_pid, contains_u32,
    lemma_chain_elements_contained, lemma_chain_prefix, lemma_chain_steps, lemma_chain_transfer,
    pids_unique, reaches, record_of, same_but_parent, surviving_link, Process, ProcessMap};
use crate::profile::Profile;
use crate::rules::{contains_str, kv_contains, Assignments, Condition, ProfileConditions};
use crate::wildcard::MatchCondition;

verus! {

/// The cached classification of a process record.
#[derive(Debug)]
pub enum OwnedPriority {
    /// Matched no rule: eligible for overlay-driven defaults
    Assignable,
    /// A rule bound this profile
    Config(Profile),
    /// Must keep whatever priority it already has
    Exception,
    /// Not classified, or a kernel thread
    NotAssignable,
}

impl Clone for OwnedPriority {
    fn clone(&self) -> (r: Self)
        ensures
            r == *self,
    {
        match self {
            OwnedPriority::Assignable => OwnedPriority::Assignable,
            OwnedPriority::Config(profile) => OwnedPriority::Config(profile.clone()),
            OwnedPriority::Exception => OwnedPriority::Exception,
            OwnedPriority::NotAssignable => OwnedPriority::NotAssignable,
        }
    }
}

impl Default for OwnedPriority {
    /// A fresh record starts unclassified.
    fn default() -> (r: Self)
        ensures
            r is NotAssignable,
    {
        OwnedPriority::NotAssignable
    }
}

/// A borrowed view of a record's classification.
#[derive(Debug)]
pub enum Priority<'a> {
    /// Matched no rule: eligible for overlay-driven defaults
    Assignable,
    /// A rule bound this profile
    Config(&'a Profile),
    /// Must keep whatever priority it already has
    Exception,
    /// Not classified, or a kernel thread
    NotAssignable,
}

impl OwnedPriority {
    /// Borrows the held profile instead of cloning it.
    pub fn as_ref<'a>(&'a self) -> (r: Priority<'a>)
        ensures
            (self is Assignable) == (r is Assignable),
            (self is Exception) == (r is Exception),
            (self is NotAssignable) == (r is NotAssignable),
            (self is Config) == (r is Config),
            r matches Priority::Config(q) ==> self matches OwnedPriority::Config(p) && p == *q,
    {
        match self {
            OwnedPriority::Assignable => Priority::Assignable,
            OwnedPriority::Config(profile) => Priority::Config(profile),
            OwnedPriority::Exception => Priority::Exception,
            OwnedPriority::NotAssignable => Priority::NotAssignable,
        }
    }
}

/// Every session ancestor a record carries names a current member of
/// the session set.
pub open spec fn session_ancestors_current(s: Seq<Process>, pw: Seq<u32>) -> bool {
    forall|j: int|
        0 <= j < s.len() ==> ((#[trigger] s[j]).pipewire_ancestor matches Some(q) ==> contains_u32(
            pw,
            q,
        ))
}

/// The parent record that a record's link names, when present.
pub open spec fn parent_record(s: Seq<Process>, rec: Process) -> Option<Process> {
    match rec.parent {
        Some(p) => if contains_pid(s, p) {
            Some(record_of(s, p))
        } else {
            None
        },
        None => None,
    }
}

/// The ancestor chain of a record, nearest first.
pub open spec fn record_chain(s: Seq<Process>, rec: Process) -> Seq<u32> {
    chain_pids(s, rec.parent, s.len() as nat)
}

/// Whether any pattern of the list accepts the parent's name.
pub open spec fn parent_name_matches(s: Seq<Process>, rec: Process, pats: Seq<MatchCondition>) -> bool {
    parent_record(s, rec) matches Some(par) && exists|k: int|
        0 <= k < pats.len() && (#[trigger] pats[k]).spec_matches(par.name@)
}

/// Whether any ancestor's name is accepted by the pattern.
pub open spec fn ancestor_name_matches(s: Seq<Process>, rec: Process, m: MatchCondition) -> bool {
    exists|k: int|
        0 <= k < record_chain(s, rec).len() && m.spec_matches(
            record_of(s, #[trigger] record_chain(s, rec)[k]).name@,
        )
}

/// Whether a conditional rule accepts the record: every present field has
/// to match.
pub open spec fn condition_met(s: Seq<Process>, rec: Process, cond: Condition) -> bool {
    &&& (cond.cgroup matches Some(m) ==> m.spec_matches(rec.cgroup@))
    &&& (cond.name matches Some(m) ==> m.spec_matches(rec.name@))
    &&& (cond.parent@.len() > 0 ==> parent_name_matches(s, rec, cond.parent@))
    &&& (cond.descends matches Some(m) ==> ancestor_name_matches(s, rec, m))
}

/// Whether any pattern accepts the parent's name or its name before the
/// last rename, as the exception rules ask.
pub open spec fn parent_either_name_matches(
    s: Seq<Process>,
    rec: Process,
    pats: Seq<MatchCondition>,
) -> bool {
    parent_record(s, rec) matches Some(par) && exists|k: int|
        0 <= k < pats.len() && ((#[trigger] pats[k]).spec_matches(par.name@)
            || pats[k].spec_matches(par.forked_name@))
}

/// Whether the record descends from a process the pattern accepts: its
/// own name before the last rename counts, then any ancestor's name or
/// pre-rename name.
pub open spec fn descends_matches(s: Seq<Process>, rec: Process, m: MatchCondition) -> bool {
    ||| m.spec_matches(rec.forked_name@)
    ||| exists|k: int|
        0 <= k < record_chain(s, rec).len() && (m.spec_matches(
            record_of(s, #[trigger] record_chain(s, rec)[k]).name@,
        ) || m.spec_matches(record_of(s, record_chain(s, rec)[k]).forked_name@))
}

/// Whether an exception rule accepts the record.
pub open spec fn exception_condition_met(s: Seq<Process>, rec: Process, cond: Condition) -> bool {
    &&& (cond.cgroup matches Some(m) ==> m.spec_matches(rec.cgroup@))
    &&& (cond.name matches Some(m) ==> m.spec_matches(rec.name@))
    &&& (cond.parent@.len() > 0 ==> parent_either_name_matches(s, rec, cond.parent@))
    &&& (cond.descends matches Some(m) ==> descends_matches(s, rec, m))
}

/// Whether the record is excepted from priority changes.
pub open spec fn is_exception(s: Seq<Process>, rec: Process, a: Assignments) -> bool {
    ||| contains_str(a.exceptions_by_cmdline@, rec.cmdline@)
    ||| contains_str(a.exceptions_by_name@, rec.name@)
    ||| exists|i: int|
        0 <= i < a.exceptions_conditions@.len() && exception_condition_met(
            s,
            rec,
            #[trigger] a.exceptions_conditions@[i],
        )
}

/// The value stored under `key`.
pub open spec fn kv_value(s: Seq<(String, Profile)>, key: Seq<char>) -> Profile {
    s[choose|i: int| 0 <= i < s.len() && s[i].0@ == key].1
}

/// Whether an entry of the conditional table ends up bound to the record:
/// some keep rule matches and no drop rule does.
pub open spec fn profile_bound(s: Seq<Process>, rec: Process, entry: ProfileConditions) -> bool {
    &&& exists|k: int|
        0 <= k < entry.rules@.len() && (#[trigger] entry.rules@[k]).1 && condition_met(
            s,
            rec,
            entry.rules@[k].0,
        )
    &&& forall|k: int|
        0 <= k < entry.rules@.len() ==> ((#[trigger] entry.rules@[k]).1 || !condition_met(
            s,
            rec,
            entry.rules@[k].0,
        ))
}

/// The profile of the first entry of the conditional table that binds.
pub open spec fn conditions_verdict(
    s: Seq<Process>,
    rec: Process,
    entries: Seq<ProfileConditions>,
) -> Option<Profile>
    decreases entries.len(),
{
    if entries.len() == 0 {
        None
    } else if profile_bound(s, rec, entries[0]) {
        Some(entries[0].profile)
    } else {
        conditions_verdict(s, rec, entries.skip(1))
    }
}

/// The verdict the rule engine gives a record: kernel threads are not
/// assignable, exceptions come first, then exact cmdline and name
/// matches, then records outside any cgroup, then the conditional table,
/// and whatever is left is assignable.
pub open spec fn verdict_of(s: Seq<Process>, rec: Process, a: Assignments) -> OwnedPriority {
    if rec.cmdline@.len() == 0 {
        OwnedPriority::NotAssignable
    } else if is_exception(s, rec, a) {
        OwnedPriority::Exception
    } else if kv_contains(a.profile_by_cmdline@, rec.cmdline@) {
        OwnedPriority::Config(kv_value(a.profile_by_cmdline@, rec.cmdline@))
    } else if kv_contains(a.profile_by_name@, rec.name@) {
        OwnedPriority::Config(kv_value(a.profile_by_name@, rec.name@))
    } else if rec.cgroup@.len() == 0 {
        OwnedPriority::NotAssignable
    } else {
        match conditions_verdict(s, rec, a.conditions@) {
            Some(p) => OwnedPriority::Config(p),
            None => OwnedPriority::Assignable,
        }
    }
}

/// The first e entries of the table decide nothing when none of them
/// binds.
proof fn lemma_conditions_verdict_skip(
    s: Seq<Process>,
    rec: Process,
    entries: Seq<ProfileConditions>,
    e: int,
)
    requires
        0 <= e <= entries.len(),
        forall|j: int| 0 <= j < e ==> !profile_bound(s, rec, #[trigger] entries[j]),
    ensures
        conditions_verdict(s, rec, entries) == conditions_verdict(s, rec, entries.skip(e)),
    decreases e,
{
    assert(entries.skip(0) =~= entries);
    if e > 0 {
        assert(!profile_bound(s, rec, entries[0]));
        assert(conditions_verdict(s, rec, entries) == conditions_verdict(
            s,
            rec,
            entries.skip(1),
        ));
        assert(forall|j: int|
            0 <= j < e - 1 ==> #[trigger] entries.skip(1)[j] == entries[j + 1]);
        lemma_conditions_verdict_skip(s, rec, entries.skip(1), e - 1);
        assert(entries.skip(1).skip(e - 1) =~= entries.skip(e));
    }
}

/// Decides whether any pattern in the list accepts the name, or the name
/// before the last rename when those count too.
fn any_pattern_matches(pats: &Vec<MatchCondition>, name: &str, forked: Option<&str>) -> (r: bool)
    ensures
        ({
            match forked {
                Some(f) => r == exists|k: int|
                    0 <= k < pats@.len() && ((#[trigger] pats@[k]).spec_matches(name@)
                        || pats@[k].spec_matches(f@)),
                None => r == exists|k: int|
                    0 <= k < pats@.len() && (#[trigger] pats@[k]).spec_matches(name@),
            }
        }),
{
    let len = pats.len();
    let mut k: usize = 0;
    while k < len
        invariant
            k <= len,
            forall|j: int|
                0 <= j < k ==> !(#[trigger] pats@[j]).spec_matches(name@) && (forked matches Some(
                    f,
                ) ==> !pats@[j].spec_matches(f@)),
        decreases len - k,
    {
        if pats[k].matches(name) {
            return true;
        }
        match forked {
            Some(f) => {
                if pats[k].matches(f) {
                    return true;
                }
            },
            None => {},
        }
        k = k + 1;
    }
    false
}

/// The scheduling service: configuration, overlay state, and the live
/// process map, driven by the surrounding event loop.
#[derive(Debug)]
pub struct Service {
    /// The active configuration
    pub config: crate::config::Config,
    /// Where the kernel exposes the CFS tunables
    pub cfs_paths: crate::cfs::SchedPaths,
    /// The focused PID and its assignable descendants
    pub foreground_processes: Vec<u32>,
    /// The focused PID, when focus handling has seen one
    pub foreground: Option<u32>,
    /// PIDs holding an active audio-session handle
    pub pipewire_processes: Vec<u32>,
    /// The live process records
    pub process_map: ProcessMap,
}

impl Service {
    /// Well-formed configuration and process map, and no duplicate
    /// audio-session PID.
    pub open spec fn wf(self) -> bool {
        &&& self.config.wf()
        &&& self.process_map.wf()
        &&& crate::process::u32s_unique(self.pipewire_processes@)
    }

    /// A service with the default configuration and an empty map.
    pub fn new(cfs_paths: crate::cfs::SchedPaths) -> (r: Service)
        ensures
            r.wf(),
            r.foreground is None,
            r.foreground_processes@.len() == 0,
            r.pipewire_processes@.len() == 0,
            r.process_map.procs@.len() == 0,
            r.process_map.drain@.len() == 0,
    {
        Service {
            config: crate::config::Config::default(),
            cfs_paths,
            foreground: None,
            foreground_processes: Vec::new(),
            pipewire_processes: Vec::new(),
            process_map: ProcessMap::new(),
        }
    }

    /// Decides one conditional rule against the record whose ancestors
    /// are `anc`.
    fn condition_met_exec(&self, rec: &Process, anc: &Vec<usize>, cond: &Condition) -> (r: bool)
        requires
            self.wf(),
            ancestors_listed(self.process_map.procs@, *rec, anc@),
        ensures
            r == condition_met(self.process_map.procs@, *rec, *cond),
    {
        let ghost s = self.process_map.procs@;
        match &cond.cgroup {
            Some(m) => {
                if !m.matches(self.field_str(&rec.cgroup)) {
                    return false;
                }
            },
            None => {},
        }
        match &cond.name {
            Some(m) => {
                if !m.matches(self.field_str(&rec.name)) {
                    return false;
                }
            },
            None => {},
        }
        if cond.parent.len() > 0 {
            let ok = match rec.parent {
                Some(pp) => match self.process_map.index_of_pid(pp) {
                    Some(j) => {
                        let par = &self.process_map.procs[j];
                        proof {
                            assert(parent_record(s, *rec) == Some(record_of(s, pp)));
                        }
                        any_pattern_matches(&cond.parent, self.field_str(&par.name), None)
                    },
                    None => false,
                },
                None => false,
            };
            if !ok {
                proof {
                    assert(!parent_name_matches(s, *rec, cond.parent@));
                }
                return false;
            }
        }
        match &cond.descends {
            Some(m) => {
                let found = self.any_ancestor_matches(anc, m, false, Ghost(*rec));
                if !found {
                    return false;
                }
            },
            None => {},
        }
        true
    }

    /// Borrow helper so that a record field can be handed on as a slice.
    fn field_str<'a>(&self, s: &'a String) -> (r: &'a str)
        ensures
            r@ == s@,
    {
        s.as_str()
    }

    /// Walks the listed ancestors and asks whether any name matches; with
    /// `either` set, a pre-rename name counts too.
    fn any_ancestor_matches(
        &self,
        anc: &Vec<usize>,
        m: &MatchCondition,
        either: bool,
        rec: Ghost<Process>,
    ) -> (r: bool)
        requires
            self.wf(),
            ancestors_listed(self.process_map.procs@, rec@, anc@),
        ensures
            ({
                let s = self.process_map.procs@;
                if either {
                    r == exists|k: int|
                        0 <= k < record_chain(s, rec@).len() && (m.spec_matches(
                            record_of(s, #[trigger] record_chain(s, rec@)[k]).name@,
                        ) || m.spec_matches(record_of(s, record_chain(s, rec@)[k]).forked_name@))
                } else {
                    r == ancestor_name_matches(s, rec@, *m)
                }
            }),
    {
        let ghost s = self.process_map.procs@;
        let ghost chain = record_chain(s, rec@);
        let len = anc.len();
        let mut k: usize = 0;
        while k < len
            invariant
                k <= len,
                forall|j: int|
                    0 <= j < k ==> !m.spec_matches(
                        record_of(s, #[trigger] chain[j]).name@,
                    ) && (either ==> !m.spec_matches(record_of(s, chain[j]).forked_name@)),
            decreases len - k,
        {
            let idx = anc[k];
            let a = &self.process_map.procs[idx];
            proof {
                assert(s[idx as int] == record_of(s, chain[k as int]));
            }
            if m.matches(self.field_str(&a.name)) {
                return true;
            }
            if either {
                if m.matches(self.field_str(&a.forked_name)) {
                    return true;
                }
            }
            k = k + 1;
        }
        false
    }
}

/// The vector lists the record's ancestor chain: entry `k` is the index
/// of the record for the chain's `k`-th PID.
pub open spec fn ancestors_listed(s: Seq<Process>, rec: Process, anc: Seq<usize>) -> bool {
    &&& anc.len() == record_chain(s, rec).len()
    &&& forall|k: int|
        0 <= k < anc.len() ==> #[trigger] anc[k] < s.len() && s[anc[k] as int].id == record_chain(
            s,
            rec,
        )[k] && s[anc[k] as int] == record_of(s, record_chain(s, rec)[k])
}

impl Service {
    /// Decides one exception rule against the record.
    fn exception_condition_met_exec(&self, rec: &Process, anc: &Vec<usize>, cond: &Condition) -> (r:
        bool)
        requires
            self.wf(),
            ancestors_listed(self.process_map.procs@, *rec, anc@),
        ensures
            r == exception_condition_met(self.process_map.procs@, *rec, *cond),
    {
        let ghost s = self.process_map.procs@;
        match &cond.cgroup {
            Some(m) => {
                if !m.matches(self.field_str(&rec.cgroup)) {
                    return false;
                }
            },
            None => {},
        }
        match &cond.name {
            Some(m) => {
                if !m.matches(self.field_str(&rec.name)) {
                    return false;
                }
            },
            None => {},
        }
        if cond.parent.len() > 0 {
            let ok = match rec.parent {
                Some(pp) => match self.process_map.index_of_pid(pp) {
                    Some(j) => {
                        let par = &self.process_map.procs[j];
                        proof {
                            assert(parent_record(s, *rec) == Some(record_of(s, pp)));
                        }
                        any_pattern_matches(
                            &cond.parent,
                            self.field_str(&par.name),
                            Some(self.field_str(&par.forked_name)),
                        )
                    },
                    None => false,
                },
                None => false,
            };
            if !ok {
                proof {
                    assert(!parent_either_name_matches(s, *rec, cond.parent@));
                }
                return false;
            }
        }
        match &cond.descends {
            Some(m) => {
                if m.matches(self.field_str(&rec.forked_name)) {
                    return true;
                }
                let found = self.any_ancestor_matches(anc, m, true, Ghost(*rec));
                if !found {
                    return false;
                }
            },
            None => {},
        }
        true
    }

    /// Check if the record at `idx` is excepted from priority changes.
    pub fn process_is_exception(&self, idx: usize) -> (r: bool)
        requires
            self.wf(),
            idx < self.process_map.procs@.len(),
        ensures
            r == is_exception(
                self.process_map.procs@,
                self.process_map.procs@[idx as int],
                self.config.process_scheduler.assignments,
            ),
    {
        let ghost s = self.process_map.procs@;
        let ghost rec = s[idx as int];
        let a = &self.config.process_scheduler.assignments;
        if a.is_exception_by_cmdline(self.process_map.procs[idx].cmdline.as_str()) {
            return true;
        }
        if a.is_exception_by_name(self.process_map.procs[idx].name.as_str()) {
            return true;
        }
        let anc = self.process_map.ancestors_of(idx);
        let rec_c = self.process_map.procs[idx].clone();
        let len = self.config.process_scheduler.assignments.exceptions_conditions.len();
        let mut i: usize = 0;
        while i < len
            invariant
                i <= len,
                len == self.config.process_scheduler.assignments.exceptions_conditions@.len(),
                rec_c == rec,
                ancestors_listed(s, rec, anc@),
                forall|j: int|
                    0 <= j < i ==> !exception_condition_met(
                        s,
                        rec,
                        #[trigger] self.config.process_scheduler.assignments.exceptions_conditions@[j],
                    ),
            decreases len - i,
        {
            let cond = &self.config.process_scheduler.assignments.exceptions_conditions[i];
            if self.exception_condition_met_exec(&rec_c, &anc, cond) {
                return true;
            }
            i = i + 1;
        }
        false
    }

    /// Runs the rule engine on the record at `idx` without touching any
    /// state.
    fn classify(&self, idx: usize) -> (v: OwnedPriority)
        requires
            self.wf(),
            idx < self.process_map.procs@.len(),
        ensures
            v == verdict_of(
                self.process_map.procs@,
                self.process_map.procs@[idx as int],
                self.config.process_scheduler.assignments,
            ),
    {
        let ghost s = self.process_map.procs@;
        let ghost rec = s[idx as int];
        let ghost a = self.config.process_scheduler.assignments;
        if self.process_map.procs[idx].cmdline.as_str().is_empty() {
            return OwnedPriority::NotAssignable;
        }
        if self.process_is_exception(idx) {
            return OwnedPriority::Exception;
        }
        let direct = self.config.process_scheduler.assignments.get_by_cmdline(
            self.process_map.procs[idx].cmdline.as_str(),
        );
        match direct {
            Some(profile) => {
                let p = profile.clone();
                proof {
                    lemma_kv_value(a.profile_by_cmdline@, rec.cmdline@, p);
                }
                return OwnedPriority::Config(p);
            },
            None => {},
        }
        let by_name = self.config.process_scheduler.assignments.get_by_name(
            self.process_map.procs[idx].name.as_str(),
        );
        match by_name {
            Some(profile) => {
                let p = profile.clone();
                proof {
                    lemma_kv_value(a.profile_by_name@, rec.name@, p);
                }
                return OwnedPriority::Config(p);
            },
            None => {},
        }
        if self.process_map.procs[idx].cgroup.as_str().is_empty() {
            return OwnedPriority::NotAssignable;
        }
        let anc = self.process_map.ancestors_of(idx);
        let rec_c = self.process_map.procs[idx].clone();
        let ghost entries = self.config.process_scheduler.assignments.conditions@;
        let e_len = self.config.process_scheduler.assignments.conditions.len();
        let mut e: usize = 0;
        while e < e_len
            invariant
                e <= e_len,
                e_len == entries.len(),
                entries == self.config.process_scheduler.assignments.conditions@,
                rec_c == rec,
                ancestors_listed(s, rec, anc@),
                forall|j: int| 0 <= j < e ==> !profile_bound(s, rec, #[trigger] entries[j]),
            decreases e_len - e,
        {
            let ghost entry_g = entries[e as int];
            let rules_len = self.config.process_scheduler.assignments.conditions[e].rules.len();
            let mut keep = false;
            let mut dropped = false;
            let mut k: usize = 0;
            while k < rules_len
                invariant
                    k <= rules_len,
                    e < e_len,
                    e_len == entries.len(),
                    entries == self.config.process_scheduler.assignments.conditions@,
                    entry_g == entries[e as int],
                    rules_len == entry_g.rules@.len(),
                    rec_c == rec,
                    ancestors_listed(s, rec, anc@),
                    keep == exists|j: int|
                        0 <= j < k && (#[trigger] entry_g.rules@[j]).1 && condition_met(
                            s,
                            rec,
                            entry_g.rules@[j].0,
                        ),
                    dropped == exists|j: int|
                        0 <= j < k && !(#[trigger] entry_g.rules@[j]).1 && condition_met(
                            s,
                            rec,
                            entry_g.rules@[j].0,
                        ),
                decreases rules_len - k,
            {
                let rule = &self.config.process_scheduler.assignments.conditions[e].rules[k];
                let met = self.condition_met_exec(&rec_c, &anc, &rule.0);
                if met {
                    if rule.1 {
                        keep = true;
                    } else {
                        dropped = true;
                    }
                }
                k = k + 1;
            }
            if keep && !dropped {
                proof {
                    assert(profile_bound(s, rec, entry_g));
                    lemma_conditions_verdict_skip(s, rec, entries, e as int);
                    assert(entries.skip(e as int)[0] == entries[e as int]);
                    assert(conditions_verdict(s, rec, entries) == Some(entry_g.profile));
                }
                let p = self.config.process_scheduler.assignments.conditions[e].profile.clone();
                return OwnedPriority::Config(p);
            }
            proof {
                assert(!profile_bound(s, rec, entry_g));
            }
            e = e + 1;
        }
        proof {
            lemma_conditions_verdict_skip(s, rec, entries, entries.len() as int);
            assert(entries.skip(entries.len() as int).len() == 0);
            assert(conditions_verdict(s, rec, entries) is None);
        }
        OwnedPriority::Assignable
    }

    /// Classifies the record at `idx` when it has no cached verdict yet;
    /// a record that already carries one keeps it.
    pub fn assign_process_priority(&mut self, idx: usize)
        requires
            old(self).wf(),
            idx < old(self).process_map.procs@.len(),
        ensures
            final(self).wf(),
            final(self).config == old(self).config,
            final(self).cfs_paths == old(self).cfs_paths,
            final(self).foreground == old(self).foreground,
            final(self).foreground_processes@ == old(self).foreground_processes@,
            final(self).pipewire_processes@ == old(self).pipewire_processes@,
            final(self).process_map.drain@ == old(self).process_map.drain@,
            final(self).process_map.procs@.len() == old(self).process_map.procs@.len(),
            forall|j: int|
                0 <= j < old(self).process_map.procs@.len() && j != idx
                    ==> final(self).process_map.procs@[j] == old(self).process_map.procs@[j],
            ({
                let old_rec = old(self).process_map.procs@[idx as int];
                let new_rec = final(self).process_map.procs@[idx as int];
                if old_rec.assigned_priority is NotAssignable {
                    reclassified(
                        old_rec,
                        new_rec,
                        verdict_of(
                            old(self).process_map.procs@,
                            old_rec,
                            old(self).config.process_scheduler.assignments,
                        ),
                    )
                } else {
                    new_rec == old_rec
                }
            }),
    {
        let not_assigned = match &self.process_map.procs[idx].assigned_priority {
            OwnedPriority::NotAssignable => true,
            _ => false,
        };
        if !not_assigned {
            return ;
        }
        let v = self.classify(idx);
        let mut rec = self.process_map.procs[idx].clone();
        rec.assigned_priority = v;
        self.process_map.procs.set(idx, rec);
        proof {
            assert(pids_unique(self.process_map.procs@));
            assert forall|k: int|
                0 <= k < self.process_map.procs@.len() implies (
            #[trigger] self.process_map.procs@[k].parent matches Some(p) ==> contains_pid(
                self.process_map.procs@,
                p,
            )) by {
                match self.process_map.procs@[k].parent {
                    Some(p) => {
                        assert(self.process_map.procs@[k].parent == old(
                            self,
                        ).process_map.procs@[k].parent);
                        assert(contains_pid(old(self).process_map.procs@, p));
                        let w = choose|m: int|
                            0 <= m < old(self).process_map.procs@.len() && old(
                                self,
                            ).process_map.procs@[m].id == p;
                        assert(self.process_map.procs@[w].id == p);
                    },
                    None => {},
                }
            }
        }
    }
}

/// The record was given this verdict; everything else is untouched.
pub open spec fn reclassified(old_rec: Process, new_rec: Process, v: OwnedPriority) -> bool {
    &&& new_rec.id == old_rec.id
    &&& new_rec.parent_id == old_rec.parent_id
    &&& new_rec.name == old_rec.name
    &&& new_rec.cgroup == old_rec.cgroup
    &&& new_rec.cmdline == old_rec.cmdline
    &&& new_rec.forked_cmdline == old_rec.forked_cmdline
    &&& new_rec.forked_name == old_rec.forked_name
    &&& new_rec.parent == old_rec.parent
    &&& new_rec.assigned_priority == v
    &&& new_rec.pipewire_ancestor == old_rec.pipewire_ancestor
}

/// With unique keys, any value found for a key is the table's value for
/// it.
proof fn lemma_kv_value(s: Seq<(String, crate::profile::Profile)>, key: Seq<char>, p: crate::profile::Profile)
    requires
        crate::rules::kv_unique(s),
        crate::rules::kv_has(s, key, p),
    ensures
        kv_value(s, key) == p,
{
    let i = choose|i: int| 0 <= i < s.len() && s[i].0@ == key && s[i].1 == p;
    let j = choose|j: int| 0 <= j < s.len() && s[j].0@ == key;
    if i != j {
        assert(s[i].0@ != s[j].0@);
    }
}

/// Whether the record sits in the audio-session overlay: its own PID
/// holds a session, or its recorded session ancestor is a current member
/// of the session set.
pub open spec fn pipewire_assigned_spec(pw: Seq<u32>, rec: Process) -> bool {
    contains_u32(pw, rec.id) || (rec.pipewire_ancestor matches Some(q) && contains_u32(pw, q))
}

/// Whether the record descends from `ancestor`, by captured parent PID or
/// along the linked ancestor chain.
pub open spec fn descended_from(s: Seq<Process>, rec: Process, ancestor: u32) -> bool {
    ||| rec.parent_id == ancestor
    ||| exists|k: int|
        0 <= k < record_chain(s, rec).len() && (record_of(
            s,
            #[trigger] record_chain(s, rec)[k],
        ).id == ancestor || record_of(s, record_chain(s, rec)[k]).parent_id == ancestor)
}

/// Whether the record belongs to the focused process tree.
pub open spec fn in_focus_tree(s: Seq<Process>, rec: Process, pid: u32) -> bool {
    rec.id == pid || descended_from(s, rec, pid)
}

/// The profile every assignable record falls back to.
pub open spec fn is_default_assignable(p: Profile) -> bool {
    &&& p.name@ == "default"@
    &&& p.nice is None
    &&& (p.io matches crate::profile::IoPolicy::BestEffort(l) && l.value() == 7)
    &&& p.sched_policy is Other
    &&& p.sched_priority.value() == 1
}

/// The profile that applying the record's verdict under the current
/// overlays would set, if any.
pub open spec fn is_effective_profile(svc: Service, rec: Process, r: Option<Profile>) -> bool {
    effective_profile_parts(
        svc.config.process_scheduler.pipewire,
        svc.config.process_scheduler.foreground,
        svc.foreground,
        svc.foreground_processes@,
        svc.pipewire_processes@,
        rec,
        r,
    )
}

/// The effective-profile table of the overlay manager, over its plain
/// inputs: the configured session and focus profiles, the focused PID,
/// the foreground list and the session set.
pub open spec fn effective_profile_parts(
    pw_profile: Option<Profile>,
    fg_cfg: Option<crate::config::ForegroundAssignments>,
    focused: Option<u32>,
    fg_list: Seq<u32>,
    pw_list: Seq<u32>,
    rec: Process,
    r: Option<Profile>,
) -> bool {
    match rec.assigned_priority {
        OwnedPriority::Config(p) => r == Some(p),
        OwnedPriority::Exception => r is None,
        OwnedPriority::NotAssignable => r is None,
        OwnedPriority::Assignable => {
            match pw_profile {
                Some(pw) => if pipewire_assigned_spec(pw_list, rec) {
                    r == Some(pw)
                } else {
                    focus_effective_parts(fg_cfg, focused, fg_list, rec, r)
                },
                None => focus_effective_parts(fg_cfg, focused, fg_list, rec, r),
            }
        },
    }
}

/// The focus overlay's half of the effective-profile table.
pub open spec fn focus_effective_parts(
    fg_cfg: Option<crate::config::ForegroundAssignments>,
    focused: Option<u32>,
    fg_list: Seq<u32>,
    rec: Process,
    r: Option<Profile>,
) -> bool {
    match (fg_cfg, focused) {
        (Some(fa), Some(f)) => if rec.id == f || contains_u32(fg_list, rec.id) {
            r == Some(fa.foreground)
        } else {
            r == Some(fa.background)
        },
        _ => r matches Some(p) && is_default_assignable(p),
    }
}

/// The two records agree on every field but the cached verdict.
pub open spec fn same_but_priority(a: Process, b: Process) -> bool {
    &&& b.id == a.id
    &&& b.parent_id == a.parent_id
    &&& b.name == a.name
    &&& b.cgroup == a.cgroup
    &&& b.cmdline == a.cmdline
    &&& b.forked_cmdline == a.forked_cmdline
    &&& b.forked_name == a.forked_name
    &&& b.parent == a.parent
    &&& b.pipewire_ancestor == a.pipewire_ancestor
}

/// Whether applying this record's verdict issues a priority action: a
/// configured or assignable record always does, the others never.
pub open spec fn emits_action(rec: Process) -> bool {
    rec.assigned_priority is Config || rec.assigned_priority is Assignable
}

/// How many of the records issue an action.
pub open spec fn emit_count(s: Seq<Process>) -> int
    decreases s.len(),
{
    if s.len() == 0 {
        0
    } else {
        emit_count(s.drop_last()) + if emits_action(s.last()) {
            1int
        } else {
            0int
        }
    }
}

/// The PIDs the focus change adds after the focused one: every assignable
/// record in the focused tree, in map order.
pub open spec fn fg_tail(s_all: Seq<Process>, s: Seq<Process>, pid: u32) -> Seq<u32>
    decreases s.len(),
{
    if s.len() == 0 {
        Seq::empty()
    } else {
        (if s[0].assigned_priority is Assignable && in_focus_tree(s_all, s[0], pid) {
            seq![s[0].id]
        } else {
            Seq::empty()
        }) + fg_tail(s_all, s.skip(1), pid)
    }
}

/// The priority actions a focus change issues, in map order: foreground
/// for assignable records in the tree, background for the rest, with
/// audio-session records left alone.
pub open spec fn fg_actions(
    s_all: Seq<Process>,
    s: Seq<Process>,
    pid: u32,
    pw: Seq<u32>,
    fa: crate::config::ForegroundAssignments,
) -> Seq<(u32, Profile)>
    decreases s.len(),
{
    if s.len() == 0 {
        Seq::empty()
    } else {
        (if s[0].assigned_priority is Assignable && !pipewire_assigned_spec(pw, s[0]) {
            if in_focus_tree(s_all, s[0], pid) {
                seq![(s[0].id, fa.foreground)]
            } else {
                seq![(s[0].id, fa.background)]
            }
        } else {
            Seq::empty()
        }) + fg_actions(s_all, s.skip(1), pid, pw, fa)
    }
}

impl Service {
    /// Whether the record at `idx` sits in the audio-session overlay.
    pub fn process_is_pipewire_assigned(&self, idx: usize) -> (r: bool)
        requires
            self.wf(),
            idx < self.process_map.procs@.len(),
        ensures
            r == pipewire_assigned_spec(
                self.pipewire_processes@,
                self.process_map.procs@[idx as int],
            ),
    {
        if crate::process::find_u32(&self.pipewire_processes, self.process_map.procs[idx].id) {
            return true;
        }
        match self.process_map.procs[idx].pipewire_ancestor {
            Some(q) => crate::process::find_u32(&self.pipewire_processes, q),
            None => false,
        }
    }

    /// Check if the record at `idx` has descended from the `ancestor`.
    pub fn process_descended_from(&self, idx: usize, ancestor: u32) -> (r: bool)
        requires
            self.wf(),
            idx < self.process_map.procs@.len(),
        ensures
            r == descended_from(
                self.process_map.procs@,
                self.process_map.procs@[idx as int],
                ancestor,
            ),
    {
        let ghost s = self.process_map.procs@;
        let ghost rec = s[idx as int];
        if self.process_map.procs[idx].parent_id == ancestor {
            return true;
        }
        let anc = self.process_map.ancestors_of(idx);
        let ghost chain = record_chain(s, rec);
        let len = anc.len();
        let mut k: usize = 0;
        while k < len
            invariant
                k <= len,
                ancestors_listed(s, rec, anc@),
                len == chain.len(),
                chain == record_chain(s, rec),
                forall|j: int|
                    0 <= j < k ==> !(record_of(s, #[trigger] chain[j]).id == ancestor || record_of(
                        s,
                        chain[j],
                    ).parent_id == ancestor),
            decreases len - k,
        {
            let a = &self.process_map.procs[anc[k]];
            proof {
                assert(s[anc@[k as int] as int] == record_of(s, chain[k as int]));
            }
            if a.id == ancestor || a.parent_id == ancestor {
                return true;
            }
            k = k + 1;
        }
        false
    }

    /// Gets the config-assigned priority of a process.
    #[must_use]
    pub fn process_assignment(&self, pid: u32) -> (r: Priority<'_>)
        requires
            self.wf(),
        ensures
            !contains_pid(self.process_map.procs@, pid) ==> r is NotAssignable,
            contains_pid(self.process_map.procs@, pid) ==> {
                let v = record_of(self.process_map.procs@, pid).assigned_priority;
                &&& (v is Assignable) == (r is Assignable)
                &&& (v is Exception) == (r is Exception)
                &&& (v is NotAssignable) == (r is NotAssignable)
                &&& (r matches Priority::Config(q) ==> v == OwnedPriority::Config(*q))
            },
    {
        match self.process_map.get_pid(pid) {
            Some(rec) => rec.assigned_priority.as_ref(),
            None => Priority::NotAssignable,
        }
    }

    /// The profile to apply for the record at `idx` under the current
    /// overlays, if any.
    pub fn apply_process_priority(&self, idx: usize) -> (r: Option<Profile>)
        requires
            self.wf(),
            idx < self.process_map.procs@.len(),
        ensures
            is_effective_profile(*self, self.process_map.procs@[idx as int], r),
    {
        let assignable = match &self.process_map.procs[idx].assigned_priority {
            OwnedPriority::Assignable => true,
            _ => false,
        };
        if assignable {
            match &self.config.process_scheduler.pipewire {
                Some(pw) => {
                    if self.process_is_pipewire_assigned(idx) {
                        return Some(pw.clone());
                    }
                },
                None => {},
            }
            let fg_pair = match &self.config.process_scheduler.foreground {
                Some(fa) => Some(fa.clone()),
                None => None,
            };
            match (fg_pair, self.foreground) {
                (Some(fa), Some(f)) => {
                    if self.process_map.procs[idx].id == f || crate::process::find_u32(
                        &self.foreground_processes,
                        self.process_map.procs[idx].id,
                    ) {
                        Some(fa.foreground)
                    } else {
                        Some(fa.background)
                    }
                },
                _ => Some(crate::profile::Profile::new(String::from_str("default"))),
            }
        } else {
            match &self.process_map.procs[idx].assigned_priority {
                OwnedPriority::Config(profile) => Some(profile.clone()),
                _ => None,
            }
        }
    }

    /// Sets a process as the foreground: the focused PID and every
    /// assignable descendant go on the foreground profile, every other
    /// assignable record on the background one; audio-session records are
    /// left alone.  Does nothing when no foreground profiles are
    /// configured.
    #[verifier::spinoff_prover]
    pub fn set_foreground_process(&mut self, pid: u32) -> (actions: Vec<(u32, Profile)>)
        requires
            old(self).wf(),
        ensures
            final(self).wf(),
            final(self).config == old(self).config,
            final(self).cfs_paths == old(self).cfs_paths,
            final(self).pipewire_processes@ == old(self).pipewire_processes@,
            final(self).process_map.procs@ == old(self).process_map.procs@,
            final(self).process_map.drain@ == old(self).process_map.drain@,
            ({
                let s = old(self).process_map.procs@;
                match old(self).config.process_scheduler.foreground {
                    Some(fa) => {
                        &&& final(self).foreground == Some(pid)
                        &&& final(self).foreground_processes@ == seq![pid] + fg_tail(s, s, pid)
                        &&& actions@ == fg_actions(
                            s,
                            s,
                            pid,
                            old(self).pipewire_processes@,
                            fa,
                        )
                    },
                    None => {
                        &&& final(self).foreground == old(self).foreground
                        &&& final(self).foreground_processes@ == old(
                            self,
                        ).foreground_processes@
                        &&& actions@.len() == 0
                    },
                }
            }),
    {
        let ghost s = self.process_map.procs@;
        let ghost pw = self.pipewire_processes@;
        let fa = match &self.config.process_scheduler.foreground {
            Some(fa) => fa.clone(),
            None => {
                return Vec::new();
            },
        };
        let ghost fa_g = fa;
        self.foreground = Some(pid);
        self.foreground_processes.clear();
        self.foreground_processes.push(pid);
        let mut actions: Vec<(u32, Profile)> = Vec::new();
        let len = self.process_map.procs.len();
        proof {
            assert(s.skip(0) =~= s);
        }
        let mut i: usize = 0;
        while i < len
            invariant
                i <= len,
                len == s.len(),
                self.wf(),
                self.process_map.procs@ == s,
                self.process_map.drain@ == old(self).process_map.drain@,
                self.pipewire_processes@ == pw,
                self.config == old(self).config,
                self.cfs_paths == old(self).cfs_paths,
                self.foreground == Some(pid),
                seq![pid] + fg_tail(s, s, pid) == self.foreground_processes@ + fg_tail(
                    s,
                    s.skip(i as int),
                    pid,
                ),
                fg_actions(s, s, pid, pw, fa_g) == actions@ + fg_actions(
                    s,
                    s.skip(i as int),
                    pid,
                    pw,
                    fa_g,
                ),
            decreases len - i,
        {
            proof {
                assert(s.skip(i as int)[0] == s[i as int]);
                assert(s.skip(i as int).skip(1) =~= s.skip(i + 1 as int));
            }
            let assignable = match &self.process_map.procs[i].assigned_priority {
                OwnedPriority::Assignable => true,
                _ => false,
            };
            if assignable {
                let rec_id = self.process_map.procs[i].id;
                let in_tree = rec_id == pid || self.process_descended_from(i, pid);
                let pw_assigned = self.process_is_pipewire_assigned(i);
                if in_tree {
                    self.foreground_processes.push(rec_id);
                    if !pw_assigned {
                        actions.push((rec_id, fa.foreground.clone()));
                    }
                } else {
                    if !pw_assigned {
                        actions.push((rec_id, fa.background.clone()));
                    }
                }
            }
            i = i + 1;
        }
        proof {
            assert(s.skip(len as int).len() == 0);
            assert(fg_tail(s, s.skip(len as int), pid) =~= Seq::<u32>::empty());
            assert(fg_actions(s, s.skip(len as int), pid, pw, fa_g) =~= Seq::<(
                u32,
                Profile,
            )>::empty());
            assert(self.foreground_processes@ =~= self.foreground_processes@ + Seq::<u32>::empty());
            assert(actions@ =~= actions@ + Seq::<(u32, Profile)>::empty());
        }
        actions
    }
}

/// The two records agree on every field but the audio-session ancestor,
/// which in `b` holds `pwa`.
pub open spec fn same_but_pwa(a: Process, b: Process, pwa: Option<u32>) -> bool {
    &&& b.id == a.id
    &&& b.parent_id == a.parent_id
    &&& b.name == a.name
    &&& b.cgroup == a.cgroup
    &&& b.cmdline == a.cmdline
    &&& b.forked_cmdline == a.forked_cmdline
    &&& b.forked_name == a.forked_name
    &&& b.parent == a.parent
    &&& b.assigned_priority == a.assigned_priority
    &&& b.pipewire_ancestor == pwa
}

/// Whether an audio-session add for `pid` touches this record: it is
/// assignable and the session process itself or one of its descendants.
pub open spec fn pw_add_touches(s_all: Seq<Process>, rec: Process, pid: u32) -> bool {
    rec.assigned_priority is Assignable && (rec.id == pid || descended_from(s_all, rec, pid))
}

/// The priority actions an audio-session add issues, in map order.
pub open spec fn pw_add_actions(
    s_all: Seq<Process>,
    s: Seq<Process>,
    pid: u32,
    pw_profile: Profile,
) -> Seq<(u32, Profile)>
    decreases s.len(),
{
    if s.len() == 0 {
        Seq::empty()
    } else {
        (if s[0].assigned_priority is Assignable && (s[0].id == pid || descended_from(
            s_all,
            s[0],
            pid,
        )) {
            seq![(s[0].id, pw_profile)]
        } else {
            Seq::empty()
        }) + pw_add_actions(s_all, s.skip(1), pid, pw_profile)
    }
}

/// Whether an audio-session removal for `pid` touches this record.
pub open spec fn pw_remove_touches(rec: Process, pid: u32) -> bool {
    rec.pipewire_ancestor == Some(pid) || rec.id == pid
}

/// The priority actions an audio-session removal issues, in map order:
/// each touched assignable record falls back to its focus-overlay
/// profile, when focus profiles are configured.
pub open spec fn pw_remove_actions(
    s: Seq<Process>,
    pid: u32,
    fg: Option<crate::config::ForegroundAssignments>,
    fg_list: Seq<u32>,
) -> Seq<(u32, Profile)>
    decreases s.len(),
{
    if s.len() == 0 {
        Seq::empty()
    } else {
        (if pw_remove_touches(s[0], pid) && (fg matches Some(fa)) && s[0].assigned_priority
            is Assignable {
            if contains_u32(fg_list, s[0].id) {
                seq![(s[0].id, fg->Some_0.foreground)]
            } else {
                seq![(s[0].id, fg->Some_0.background)]
            }
        } else {
            Seq::empty()
        }) + pw_remove_actions(s.skip(1), pid, fg, fg_list)
    }
}

impl Service {
    /// Assigns a process to the pipewire profile if it does not already
    /// have an assignment: the PID joins the session set unless its
    /// record already carries a non-assignable verdict, and every
    /// assignable record of its tree, the session process itself
    /// included, records the session ancestor and gets the pipewire
    /// profile.
    #[verifier::spinoff_prover]
    pub fn set_pipewire_process(&mut self, pid: u32) -> (actions: Vec<(u32, Profile)>)
        requires
            old(self).wf(),
        ensures
            final(self).wf(),
            final(self).config == old(self).config,
            final(self).cfs_paths == old(self).cfs_paths,
            final(self).foreground == old(self).foreground,
            final(self).foreground_processes@ == old(self).foreground_processes@,
            final(self).process_map.drain@ == old(self).process_map.drain@,
            ({
                let s = old(self).process_map.procs@;
                let blocked = contains_pid(s, pid) && !(record_of(s, pid).assigned_priority
                    is Assignable);
                match old(self).config.process_scheduler.pipewire {
                    Some(pw_profile) => {
                        if !contains_u32(old(self).pipewire_processes@, pid) && blocked {
                            &&& final(self).pipewire_processes@ == old(self).pipewire_processes@
                            &&& final(self).process_map.procs@ == s
                            &&& actions@.len() == 0
                        } else {
                            &&& (if contains_u32(old(self).pipewire_processes@, pid) {
                                final(self).pipewire_processes@ == old(self).pipewire_processes@
                            } else {
                                final(self).pipewire_processes@ == old(
                                    self,
                                ).pipewire_processes@.push(pid)
                            })
                            &&& final(self).process_map.procs@.len() == s.len()
                            &&& forall|j: int|
                                0 <= j < s.len() ==> if pw_add_touches(s, s[j], pid) {
                                    same_but_pwa(
                                        s[j],
                                        #[trigger] final(self).process_map.procs@[j],
                                        Some(pid),
                                    )
                                } else {
                                    final(self).process_map.procs@[j] == s[j]
                                }
                            &&& actions@ == pw_add_actions(s, s, pid, pw_profile)
                        }
                    },
                    None => {
                        &&& final(self).pipewire_processes@ == old(self).pipewire_processes@
                        &&& final(self).process_map.procs@ == s
                        &&& actions@.len() == 0
                    },
                }
            }),
    {
        let ghost s = self.process_map.procs@;
        let pw_profile = match &self.config.process_scheduler.pipewire {
            Some(p) => p.clone(),
            None => {
                return Vec::new();
            },
        };
        let ghost pwp = pw_profile;
        if !crate::process::find_u32(&self.pipewire_processes, pid) {
            let blocked = match self.process_map.get_pid(pid) {
                Some(rec) => match rec.assigned_priority {
                    OwnedPriority::Assignable => false,
                    _ => true,
                },
                None => false,
            };
            if blocked {
                return Vec::new();
            }
            self.pipewire_processes.push(pid);
        }
        let ghost pw_after = self.pipewire_processes@;
        let mut actions: Vec<(u32, Profile)> = Vec::new();
        let len = self.process_map.procs.len();
        proof {
            assert(s.skip(0) =~= s);
        }
        let mut i: usize = 0;
        while i < len
            invariant
                i <= len,
                len == s.len(),
                self.wf(),
                self.process_map.procs@.len() == s.len(),
                self.process_map.drain@ == old(self).process_map.drain@,
                self.config == old(self).config,
                self.cfs_paths == old(self).cfs_paths,
                self.foreground == old(self).foreground,
                self.foreground_processes@ == old(self).foreground_processes@,
                self.pipewire_processes@ == pw_after,
                forall|j: int|
                    0 <= j < i ==> if pw_add_touches(s, s[j], pid) {
                        same_but_pwa(s[j], #[trigger] self.process_map.procs@[j], Some(pid))
                    } else {
                        self.process_map.procs@[j] == s[j]
                    },
                forall|j: int| i <= j < s.len() ==> #[trigger] self.process_map.procs@[j] == s[j],
                pw_add_actions(s, s, pid, pwp) == actions@ + pw_add_actions(
                    s,
                    s.skip(i as int),
                    pid,
                    pwp,
                ),
            decreases len - i,
        {
            proof {
                assert(s.skip(i as int)[0] == s[i as int]);
                assert(s.skip(i as int).skip(1) =~= s.skip(i + 1 as int));
            }
            let assignable = match &self.process_map.procs[i].assigned_priority {
                OwnedPriority::Assignable => true,
                _ => false,
            };
            if assignable {
                let rec_id = self.process_map.procs[i].id;
                let touched = if rec_id == pid {
                    true
                } else {
                    self.descended_in_current(i, pid, Ghost(s))
                };
                if touched {
                    let mut rec = self.process_map.procs[i].clone();
                    rec.pipewire_ancestor = Some(pid);
                    self.process_map.procs.set(i, rec);
                    actions.push((rec_id, pw_profile.clone()));
                    proof {
                        assert(pids_unique(self.process_map.procs@));
                        assert forall|k: int|
                            0 <= k < self.process_map.procs@.len() implies (
                        #[trigger] self.process_map.procs@[k].parent matches Some(p)
                            ==> contains_pid(self.process_map.procs@, p)) by {
                            match self.process_map.procs@[k].parent {
                                Some(p) => {
                                    assert(contains_pid(s, p));
                                    let w = choose|m: int|
                                        0 <= m < s.len() && s[m].id == p;
                                    assert(self.process_map.procs@[w].id == p);
                                },
                                None => {},
                            }
                        }
                    }
                }
            }
            i = i + 1;
        }
        proof {
            assert(pw_add_actions(s, s.skip(len as int), pid, pwp) =~= Seq::<(
                u32,
                Profile,
            )>::empty());
            assert(actions@ =~= actions@ + Seq::<(u32, Profile)>::empty());
        }
        actions
    }

    /// Decides descent against the untouched prefix-invariant state: the
    /// chains only read fields the add loop never writes.
    fn descended_in_current(&self, idx: usize, ancestor: u32, s0: Ghost<Seq<Process>>) -> (r: bool)
        requires
            self.wf(),
            idx < self.process_map.procs@.len(),
            s0@.len() == self.process_map.procs@.len(),
            crate::process::pids_unique(s0@),
            forall|j: int|
                0 <= j < s0@.len() ==> (#[trigger] self.process_map.procs@[j] == s0@[j]
                    || same_but_pwa(s0@[j], self.process_map.procs@[j], Some(ancestor))),
        ensures
            r == descended_from(s0@, s0@[idx as int], ancestor),
    {
        proof {
            lemma_descended_stable(s0@, self.process_map.procs@, idx as int, ancestor);
        }
        self.process_descended_from(idx, ancestor)
    }
}

/// Descent is decided by PIDs, captured parent PIDs and parent links,
/// none of which the audio-session ancestor field carries; two maps that
/// differ only in that field agree on it.
proof fn lemma_descended_stable(s0: Seq<Process>, s1: Seq<Process>, idx: int, ancestor: u32)
    requires
        s0.len() == s1.len(),
        0 <= idx < s0.len(),
        crate::process::pids_unique(s0),
        forall|j: int|
            0 <= j < s0.len() ==> (#[trigger] s1[j] == s0[j] || same_but_pwa(
                s0[j],
                s1[j],
                Some(ancestor),
            )),
    ensures
        descended_from(s1, s1[idx], ancestor) == descended_from(s0, s0[idx], ancestor),
{
    lemma_chain_elements_contained(s0, s0[idx].parent, s0.len() as nat);
    assert forall|pid: u32| #[trigger] contains_pid(s1, pid) == contains_pid(s0, pid) by {
        if contains_pid(s1, pid) {
            let k = choose|k: int| 0 <= k < s1.len() && s1[k].id == pid;
            assert(s0[k].id == pid);
        }
        if contains_pid(s0, pid) {
            let k = choose|k: int| 0 <= k < s0.len() && s0[k].id == pid;
            assert(s1[k].id == pid);
        }
    }
    assert(links_agree(s0, s1));
    lemma_chain_agree(s0, s1, s0[idx].parent, s0.len() as nat);
    assert(s1[idx].parent == s0[idx].parent);
    assert(s1[idx].parent_id == s0[idx].parent_id);
    let c0 = record_chain(s0, s0[idx]);
    let c1 = record_chain(s1, s1[idx]);
    assert(c1 == c0);
    assert forall|k: int| 0 <= k < c0.len() implies record_of(s1, c0[k]).id == record_of(
        s0,
        c0[k],
    ).id && record_of(s1, c0[k]).parent_id == record_of(s0, c0[k]).parent_id by {
        lemma_record_of_agree(s0, s1, c0[k]);
    }
}


/// Two maps of the same length whose records pairwise agree on identity
/// fields: PIDs, captured parent PIDs and parent links.
pub open spec fn links_agree(s0: Seq<Process>, s1: Seq<Process>) -> bool {
    &&& s0.len() == s1.len()
    &&& forall|j: int|
        0 <= j < s0.len() ==> (#[trigger] s1[j]).id == s0[j].id && s1[j].parent_id
            == s0[j].parent_id && s1[j].parent == s0[j].parent
}

/// The chosen record for a PID has the same identity fields in two maps
/// that agree on them.
proof fn lemma_record_of_agree(s0: Seq<Process>, s1: Seq<Process>, pid: u32)
    requires
        links_agree(s0, s1),
        contains_pid(s0, pid),
        crate::process::pids_unique(s0),
    ensures
        record_of(s1, pid).id == record_of(s0, pid).id,
        record_of(s1, pid).parent_id == record_of(s0, pid).parent_id,
        record_of(s1, pid).parent == record_of(s0, pid).parent,
    {
        let i0 = choose|i: int| 0 <= i < s0.len() && s0[i].id == pid;
        assert(s1[i0].id == pid);
        assert(contains_pid(s1, pid));
        let j0 = crate::process::pid_index(s0, pid);
        let j1 = crate::process::pid_index(s1, pid);
        assert(s0[j0].id == pid);
        assert(s1[j1].id == pid);
        assert(s0[j1].id == pid);
        if j0 != j1 {
            assert(s0[j0].id != s0[j1].id);
        }
    }

/// Ancestor chains agree between two maps that agree on identity fields.
pub proof fn lemma_chain_agree(s0: Seq<Process>, s1: Seq<Process>, link: Option<u32>, fuel: nat)
    requires
        crate::process::pids_unique(s0),
        links_agree(s0, s1),
    ensures
        chain_pids(s1, link, fuel) == chain_pids(s0, link, fuel),
    decreases fuel,
{
    assert forall|pid: u32| #[trigger] contains_pid(s1, pid) == contains_pid(s0, pid) by {
        if contains_pid(s1, pid) {
            let k = choose|k: int| 0 <= k < s1.len() && s1[k].id == pid;
            assert(s0[k].id == pid);
        }
        if contains_pid(s0, pid) {
            let k = choose|k: int| 0 <= k < s0.len() && s0[k].id == pid;
            assert(s1[k].id == pid);
        }
    }
    if fuel > 0 {
        match link {
            Some(p) => {
                if contains_pid(s0, p) {
                    lemma_record_of_agree(s0, s1, p);
                    lemma_chain_agree(s0, s1, record_of(s0, p).parent, (fuel - 1) as nat);
                }
            },
            None => {},
        }
    }
}

impl Service {
    /// Removes a process from the pipewire profile: the PID leaves the
    /// session set, every record pointing at it as its session ancestor
    /// is cleared, and the cleared assignable records fall back to their
    /// focus-overlay profile when one is configured.
    #[verifier::spinoff_prover]
    pub fn remove_pipewire_process(&mut self, pid: u32) -> (actions: Vec<(u32, Profile)>)
        requires
            old(self).wf(),
        ensures
            final(self).wf(),
            final(self).config == old(self).config,
            final(self).cfs_paths == old(self).cfs_paths,
            final(self).foreground == old(self).foreground,
            final(self).foreground_processes@ == old(self).foreground_processes@,
            final(self).process_map.drain@ == old(self).process_map.drain@,
            ({
                let s = old(self).process_map.procs@;
                if !contains_u32(old(self).pipewire_processes@, pid) {
                    &&& final(self).pipewire_processes@ == old(self).pipewire_processes@
                    &&& final(self).process_map.procs@ == s
                    &&& actions@.len() == 0
                } else {
                    &&& (forall|y: u32|
                        #[trigger] contains_u32(final(self).pipewire_processes@, y)
                            <==> contains_u32(old(self).pipewire_processes@, y) && y != pid)
                    &&& final(self).process_map.procs@.len() == s.len()
                    &&& forall|j: int|
                        0 <= j < s.len() ==> if pw_remove_touches(s[j], pid) {
                            same_but_pwa(s[j], #[trigger] final(self).process_map.procs@[j], None)
                        } else {
                            final(self).process_map.procs@[j] == s[j]
                        }
                    &&& actions@ == pw_remove_actions(
                        s,
                        pid,
                        old(self).config.process_scheduler.foreground,
                        old(self).foreground_processes@,
                    )
                }
            }),
    {
        let ghost s = self.process_map.procs@;
        if !crate::process::find_u32(&self.pipewire_processes, pid) {
            return Vec::new();
        }
        crate::process::remove_u32(&mut self.pipewire_processes, pid);
        let ghost fg = self.config.process_scheduler.foreground;
        let ghost fg_list = self.foreground_processes@;
        let mut actions: Vec<(u32, Profile)> = Vec::new();
        let len = self.process_map.procs.len();
        proof {
            assert(s.skip(0) =~= s);
        }
        let mut i: usize = 0;
        while i < len
            invariant
                i <= len,
                len == s.len(),
                self.wf(),
                self.process_map.procs@.len() == s.len(),
                self.process_map.drain@ == old(self).process_map.drain@,
                self.config == old(self).config,
                self.cfs_paths == old(self).cfs_paths,
                self.foreground == old(self).foreground,
                self.foreground_processes@ == fg_list,
                forall|y: u32|
                    #[trigger] contains_u32(self.pipewire_processes@, y) <==> contains_u32(
                        old(self).pipewire_processes@,
                        y,
                    ) && y != pid,
                forall|j: int|
                    0 <= j < i ==> if pw_remove_touches(s[j], pid) {
                        same_but_pwa(s[j], #[trigger] self.process_map.procs@[j], None)
                    } else {
                        self.process_map.procs@[j] == s[j]
                    },
                forall|j: int| i <= j < s.len() ==> #[trigger] self.process_map.procs@[j] == s[j],
                pw_remove_actions(s, pid, fg, fg_list) == actions@ + pw_remove_actions(
                    s.skip(i as int),
                    pid,
                    fg,
                    fg_list,
                ),
            decreases len - i,
        {
            proof {
                assert(s.skip(i as int)[0] == s[i as int]);
                assert(s.skip(i as int).skip(1) =~= s.skip(i + 1 as int));
            }
            let touched = {
                let rec = &self.process_map.procs[i];
                match rec.pipewire_ancestor {
                    Some(q) => q == pid || rec.id == pid,
                    None => rec.id == pid,
                }
            };
            if touched {
                let mut rec = self.process_map.procs[i].clone();
                rec.pipewire_ancestor = None;
                self.process_map.procs.set(i, rec);
                proof {
                    assert(pids_unique(self.process_map.procs@));
                    assert forall|k: int|
                        0 <= k < self.process_map.procs@.len() implies (
                    #[trigger] self.process_map.procs@[k].parent matches Some(p) ==> contains_pid(
                        self.process_map.procs@,
                        p,
                    )) by {
                        match self.process_map.procs@[k].parent {
                            Some(p) => {
                                assert(contains_pid(s, p));
                                let w = choose|m: int| 0 <= m < s.len() && s[m].id == p;
                                assert(self.process_map.procs@[w].id == p);
                            },
                            None => {},
                        }
                    }
                }
                let assignable = match &self.process_map.procs[i].assigned_priority {
                    OwnedPriority::Assignable => true,
                    _ => false,
                };
                let fg_pair = match &self.config.process_scheduler.foreground {
                    Some(fa) => Some(fa.clone()),
                    None => None,
                };
                match fg_pair {
                    Some(fa) => {
                        if assignable {
                            let rec_id = self.process_map.procs[i].id;
                            if crate::process::find_u32(&self.foreground_processes, rec_id) {
                                actions.push((rec_id, fa.foreground));
                            } else {
                                actions.push((rec_id, fa.background));
                            }
                        }
                    },
                    None => {},
                }
            }
            i = i + 1;
        }
        proof {
            assert(pw_remove_actions(s.skip(len as int), pid, fg, fg_list) =~= Seq::<(
                u32,
                Profile,
            )>::empty());
            assert(actions@ =~= actions@ + Seq::<(u32, Profile)>::empty());
        }
        actions
    }
}

/// The record with its cached verdict replaced.
pub open spec fn with_priority(r: Process, v: OwnedPriority) -> Process {
    Process {
        id: r.id,
        parent_id: r.parent_id,
        name: r.name,
        cgroup: r.cgroup,
        cmdline: r.cmdline,
        forked_cmdline: r.forked_cmdline,
        forked_name: r.forked_name,
        parent: r.parent,
        assigned_priority: v,
        pipewire_ancestor: r.pipewire_ancestor,
    }
}

/// Whether the chosen CFS profile is the configured `default`, with the
/// built-in values as the fallback.
pub open spec fn default_cfs_choice(cfg: crate::cfs::Config, p: crate::cfs::Profile) -> bool {
    ||| exists|i: int|
        0 <= i < cfg.profiles@.len() && (#[trigger] cfg.profiles@[i]).0@ == "default"@
            && cfg.profiles@[i].1 == p
    ||| (crate::cfs::is_default_profile(p) && forall|i: int|
        0 <= i < cfg.profiles@.len() ==> (#[trigger] cfg.profiles@[i]).0@ != "default"@)
}

/// Whether the chosen CFS profile is the configured `responsive`, with
/// the built-in values as the fallback.
pub open spec fn responsive_cfs_choice(cfg: crate::cfs::Config, p: crate::cfs::Profile) -> bool {
    ||| exists|i: int|
        0 <= i < cfg.profiles@.len() && (#[trigger] cfg.profiles@[i]).0@ == "responsive"@
            && cfg.profiles@[i].1 == p
    ||| (crate::cfs::is_responsive_profile(p) && forall|i: int|
        0 <= i < cfg.profiles@.len() ==> (#[trigger] cfg.profiles@[i]).0@ != "responsive"@)
}

impl Service {
    /// Reloads the configuration and resets every cached verdict, so the
    /// next pass reclassifies everything under the new rules.
    pub fn reload_configuration(&mut self, config: crate::config::Config)
        requires
            old(self).wf(),
            config.wf(),
        ensures
            final(self).wf(),
            final(self).config == config,
            final(self).cfs_paths == old(self).cfs_paths,
            final(self).foreground == old(self).foreground,
            final(self).foreground_processes@ == old(self).foreground_processes@,
            final(self).pipewire_processes@ == old(self).pipewire_processes@,
            final(self).process_map.drain@ == old(self).process_map.drain@,
            final(self).process_map.procs@.len() == old(self).process_map.procs@.len(),
            forall|j: int|
                0 <= j < old(self).process_map.procs@.len()
                    ==> final(self).process_map.procs@[j] == with_priority(
                    old(self).process_map.procs@[j],
                    OwnedPriority::NotAssignable,
                ),
    {
        self.config = config;
        let ghost s = self.process_map.procs@;
        let len = self.process_map.procs.len();
        let mut i: usize = 0;
        while i < len
            invariant
                i <= len,
                len == s.len(),
                self.process_map.procs@.len() == s.len(),
                self.config == config,
                self.cfs_paths == old(self).cfs_paths,
                self.foreground == old(self).foreground,
                self.foreground_processes@ == old(self).foreground_processes@,
                self.pipewire_processes@ == old(self).pipewire_processes@,
                self.process_map.drain@ == old(self).process_map.drain@,
                crate::process::u32s_unique(self.process_map.drain@),
                forall|j: int|
                    0 <= j < i ==> self.process_map.procs@[j] == with_priority(
                        s[j],
                        OwnedPriority::NotAssignable,
                    ),
                forall|j: int| i <= j < s.len() ==> #[trigger] self.process_map.procs@[j] == s[j],
            decreases len - i,
        {
            let mut rec = self.process_map.procs[i].clone();
            rec.assigned_priority = OwnedPriority::NotAssignable;
            self.process_map.procs.set(i, rec);
            i = i + 1;
        }
        proof {
            assert(pids_unique(self.process_map.procs@));
            assert forall|k: int|
                0 <= k < self.process_map.procs@.len() implies (
            #[trigger] self.process_map.procs@[k].parent matches Some(p) ==> contains_pid(
                self.process_map.procs@,
                p,
            )) by {
                match self.process_map.procs@[k].parent {
                    Some(p) => {
                        assert(contains_pid(s, p));
                        let w = choose|m: int| 0 <= m < s.len() && s[m].id == p;
                        assert(self.process_map.procs@[w].id == p);
                    },
                    None => {},
                }
            }
        }
    }

    /// Adds a record to the process map.
    pub fn process_map_insert(&mut self, process: Process) -> (r: usize)
        requires
            old(self).wf(),
            process.parent matches Some(p) ==> contains_pid(old(self).process_map.procs@, p),
        ensures
            final(self).wf(),
            final(self).config == old(self).config,
            final(self).cfs_paths == old(self).cfs_paths,
            final(self).foreground == old(self).foreground,
            final(self).foreground_processes@ == old(self).foreground_processes@,
            final(self).pipewire_processes@ == old(self).pipewire_processes@,
            final(self).process_map.drain@ == old(self).process_map.drain@,
            r < final(self).process_map.procs@.len(),
            crate::process::inserted(
                old(self).process_map.procs@,
                final(self).process_map.procs@,
                process,
                r as int,
            ),
    {
        self.process_map.insert(process)
    }

    /// When a just-created child came out an exception yet inherited its
    /// parent's niceness, it is pushed back to the default profile so it
    /// does not keep an elevated priority.
    pub fn reset_inherited_exception(&self, idx: usize, child_nice: i32, parent_nice: Option<
        i32,
    >) -> (r: Option<(u32, Profile)>)
        requires
            self.wf(),
            idx < self.process_map.procs@.len(),
        ensures
            ({
                let rec = self.process_map.procs@[idx as int];
                if rec.assigned_priority is Exception && parent_nice == Some(child_nice) {
                    r matches Some(a) && a.0 == rec.id && (a.1.nice matches Some(n) && n.value()
                        == 0) && (a.1.io matches crate::profile::IoPolicy::BestEffort(l)
                        && l.value() == 7) && a.1.sched_policy is Other
                        && a.1.sched_priority.value() == 1
                } else {
                    r is None
                }
            }),
    {
        let excepted = match &self.process_map.procs[idx].assigned_priority {
            OwnedPriority::Exception => true,
            _ => false,
        };
        let inherited = match parent_nice {
            Some(n) => n == child_nice,
            None => false,
        };
        if excepted && inherited {
            let mut profile = crate::profile::Profile::new(String::from_str("default"));
            profile.nice = Some(crate::profile::Niceness::from(0));
            Some((self.process_map.procs[idx].id, profile))
        } else {
            None
        }
    }

    /// The named CFS profile, when the configuration has it.
    pub fn cfs_config<'a>(&'a self, name: &str) -> (r: Option<&'a crate::cfs::Profile>)
        ensures
            r matches Some(p) ==> exists|i: int|
                0 <= i < self.config.cfs_profiles.profiles@.len() && (
                #[trigger] self.config.cfs_profiles.profiles@[i]).0@ == name@
                    && self.config.cfs_profiles.profiles@[i].1 == *p,
            r is None ==> forall|i: int|
                0 <= i < self.config.cfs_profiles.profiles@.len() ==> (
                #[trigger] self.config.cfs_profiles.profiles@[i]).0@ != name@,
    {
        self.config.cfs_profiles.get(name)
    }

    /// The CFS profile for battery power: the configured `default`, or
    /// the built-in values.
    pub fn cfs_default_config(&self) -> (r: crate::cfs::Profile)
        requires
            self.wf(),
        ensures
            r.wf(),
            default_cfs_choice(self.config.cfs_profiles, r),
    {
        match self.cfs_config("default") {
            Some(p) => p.clone(),
            None => crate::cfs::profile_default(),
        }
    }

    /// The CFS profile for wall power: the configured `responsive`, or
    /// the built-in values.
    pub fn cfs_responsive_config(&self) -> (r: crate::cfs::Profile)
        requires
            self.wf(),
        ensures
            r.wf(),
            responsive_cfs_choice(self.config.cfs_profiles, r),
    {
        match self.cfs_config("responsive") {
            Some(p) => p.clone(),
            None => crate::cfs::profile_responsive(),
        }
    }

    /// The tunable writes for a CFS profile, when CFS tuning is enabled.
    pub fn cfs_apply(&self, conf: &crate::cfs::Profile) -> (r: Vec<crate::cfs::CfsWrite>)
        requires
            conf.wf(),
        ensures
            !self.config.cfs_profiles.enable ==> r@.len() == 0,
            self.config.cfs_profiles.enable ==> exists|nprocs: u64|
                1 <= nprocs && #[trigger] crate::cfs::spec_tweak_result(
                    self.cfs_paths,
                    *conf,
                    nprocs,
                    r@,
                ),
    {
        if !self.config.cfs_profiles.enable {
            return Vec::new();
        }
        crate::cfs::tweak(&self.cfs_paths, conf)
    }

    /// The tunable writes for the current power source: the default
    /// profile on battery, the responsive one on wall power.
    pub fn cfs_on_battery(&self, on_battery: bool) -> (r: Vec<crate::cfs::CfsWrite>)
        requires
            self.wf(),
        ensures
            !self.config.cfs_profiles.enable ==> r@.len() == 0,
            self.config.cfs_profiles.enable ==> exists|nprocs: u64, p: crate::cfs::Profile|
                1 <= nprocs && (if on_battery {
                    default_cfs_choice(self.config.cfs_profiles, p)
                } else {
                    responsive_cfs_choice(self.config.cfs_profiles, p)
                }) && #[trigger] crate::cfs::spec_tweak_result(self.cfs_paths, p, nprocs, r@),
    {
        let conf = if on_battery {
            self.cfs_default_config()
        } else {
            self.cfs_responsive_config()
        };
        self.cfs_apply(&conf)
    }
}

/// The first PID of the session list that the record names, as its own
/// PID or as its captured parent.
pub open spec fn list_pw_hit(rec: Process, pw: Seq<u32>) -> Option<u32>
    decreases pw.len(),
{
    if pw.len() == 0 {
        None
    } else if rec.id == pw[0] || rec.parent_id == pw[0] {
        Some(pw[0])
    } else {
        list_pw_hit(rec, pw.skip(1))
    }
}

/// The session PID found by walking the ancestor chain, nearest ancestor
/// first.
pub open spec fn first_pw_hit(s: Seq<Process>, chain: Seq<u32>, pw: Seq<u32>) -> Option<u32>
    decreases chain.len(),
{
    if chain.len() == 0 {
        None
    } else {
        match list_pw_hit(record_of(s, chain[0]), pw) {
            Some(q) => Some(q),
            None => first_pw_hit(s, chain.skip(1), pw),
        }
    }
}

/// The shape `assign_new_process` gives the stored cmdline: the observed
/// one replaces an empty notification while the process is alive.
pub open spec fn cmdline_shape(
    stored: String,
    given: String,
    alive: bool,
    observed: Option<String>,
) -> bool {
    if alive && given@.len() == 0 {
        match observed {
            Some(c) => stored == c,
            None => stored@.len() == 0,
        }
    } else {
        stored == given
    }
}

/// The shape `assign_new_process` gives the stored cgroup: the observed
/// one while the process is alive, empty otherwise.
pub open spec fn cgroup_shape(stored: String, alive: bool, observed: Option<String>) -> bool {
    if alive {
        match observed {
            Some(c) => stored == c,
            None => stored@.len() == 0,
        }
    } else {
        stored@.len() == 0
    }
}

/// The session hit does not depend on the fields the handler rewrites.
proof fn lemma_first_pw_hit_agree(s0: Seq<Process>, s1: Seq<Process>, chain: Seq<u32>, pw: Seq<u32>)
    requires
        crate::process::pids_unique(s0),
        links_agree(s0, s1),
        forall|k: int| 0 <= k < chain.len() ==> contains_pid(s0, #[trigger] chain[k]),
    ensures
        first_pw_hit(s1, chain, pw) == first_pw_hit(s0, chain, pw),
    decreases chain.len(),
{
    if chain.len() > 0 {
        lemma_record_of_agree(s0, s1, chain[0]);
        lemma_list_pw_hit_fields(record_of(s0, chain[0]), record_of(s1, chain[0]), pw);
        assert(forall|k: int|
            0 <= k < chain.skip(1).len() ==> contains_pid(s0, #[trigger] chain.skip(1)[k]));
        lemma_first_pw_hit_agree(s0, s1, chain.skip(1), pw);
    }
}

/// The list hit reads only the PID and captured parent PID.
proof fn lemma_list_pw_hit_fields(a: Process, b: Process, pw: Seq<u32>)
    requires
        a.id == b.id,
        a.parent_id == b.parent_id,
    ensures
        list_pw_hit(a, pw) == list_pw_hit(b, pw),
    decreases pw.len(),
{
    if pw.len() > 0 {
        lemma_list_pw_hit_fields(a, b, pw.skip(1));
    }
}

impl Service {
    /// Decides the session list against one ancestor record.
    fn pw_list_hit(&self, a_id: u32, a_parent_id: u32, rec: Ghost<Process>) -> (r: Option<u32>)
        requires
            rec@.id == a_id,
            rec@.parent_id == a_parent_id,
        ensures
            r == list_pw_hit(rec@, self.pipewire_processes@),
    {
        let ghost pw = self.pipewire_processes@;
        proof {
            assert(pw.skip(0) =~= pw);
        }
        let len = self.pipewire_processes.len();
        let mut k: usize = 0;
        while k < len
            invariant
                k <= len,
                len == pw.len(),
                self.pipewire_processes@ == pw,
                list_pw_hit(rec@, pw) == list_pw_hit(rec@, pw.skip(k as int)),
            decreases len - k,
        {
            proof {
                assert(pw.skip(k as int)[0] == pw[k as int]);
                assert(pw.skip(k as int).skip(1) =~= pw.skip(k + 1 as int));
            }
            let q = self.pipewire_processes[k];
            if a_id == q || a_parent_id == q {
                return Some(q);
            }
            k = k + 1;
        }
        proof {
            assert(pw.skip(len as int).len() == 0);
        }
        None
    }

    /// Assign a priority to a newly-created process, and record that
    /// process in the map.  The caller reports what `/proc` showed for
    /// the PID: whether it is still alive, and its observed cmdline and
    /// cgroup.  Returns the priority action the new verdict asks for.
    #[verifier::spinoff_prover]
    #[verifier::rlimit(80)]
    pub fn assign_new_process(
        &mut self,
        pid: u32,
        parent_pid: u32,
        name: String,
        cmdline: String,
        alive: bool,
        observed_cmdline: Option<String>,
        observed_cgroup: Option<String>,
    ) -> (action: Option<(u32, Profile)>)
        requires
            old(self).wf(),
        ensures
            final(self).wf(),
            final(self).config == old(self).config,
            final(self).cfs_paths == old(self).cfs_paths,
            final(self).foreground == old(self).foreground,
            final(self).foreground_processes@ == old(self).foreground_processes@,
            final(self).pipewire_processes@ == old(self).pipewire_processes@,
            final(self).process_map.drain@ == old(self).process_map.drain@,
            contains_pid(final(self).process_map.procs@, pid),
            forall|y: u32|
                y != pid ==> #[trigger] contains_pid(final(self).process_map.procs@, y)
                    == contains_pid(old(self).process_map.procs@, y),
            forall|y: u32|
                y != pid && contains_pid(old(self).process_map.procs@, y) ==> record_of(
                    final(self).process_map.procs@,
                    y,
                ) == record_of(#[trigger] old(self).process_map.procs@, y),
            ({
                let s0 = old(self).process_map.procs@;
                let sf = final(self).process_map.procs@;
                let r_new = record_of(sf, pid);
                let had_key = contains_pid(s0, pid) && record_of(s0, pid).parent_id == parent_pid;
                let kept_name = had_key && record_of(s0, pid).name@ == name@;
                &&& r_new.id == pid
                &&& r_new.parent_id == parent_pid
                &&& r_new.parent == (if contains_pid(s0, parent_pid) {
                    Some(parent_pid)
                } else {
                    None
                })
                &&& cgroup_shape(r_new.cgroup, alive, observed_cgroup)
                &&& (if kept_name {
                    &&& r_new.name == record_of(s0, pid).name
                    &&& r_new.cmdline == record_of(s0, pid).cmdline
                    &&& r_new.forked_name == record_of(s0, pid).forked_name
                    &&& r_new.forked_cmdline == record_of(s0, pid).forked_cmdline
                } else {
                    &&& r_new.name == name
                    &&& cmdline_shape(r_new.cmdline, cmdline, alive, observed_cmdline)
                    &&& (if had_key {
                        r_new.forked_name == record_of(s0, pid).name && r_new.forked_cmdline
                            == record_of(s0, pid).cmdline
                    } else {
                        r_new.forked_name@.len() == 0 && r_new.forked_cmdline@.len() == 0
                    })
                })
                &&& r_new.pipewire_ancestor == (match first_pw_hit(
                    sf,
                    record_chain(sf, r_new),
                    old(self).pipewire_processes@,
                ) {
                    Some(q) => Some(q),
                    None => if had_key {
                        record_of(s0, pid).pipewire_ancestor
                    } else {
                        None
                    },
                })
                &&& (if kept_name && !(record_of(s0, pid).assigned_priority is NotAssignable) {
                    r_new.assigned_priority == record_of(s0, pid).assigned_priority
                } else {
                    exists|i: int|
                        0 <= i < sf.len() && #[trigger] sf[i] == r_new
                            && r_new.assigned_priority == verdict_of(
                            sf.update(i, with_priority(r_new, OwnedPriority::NotAssignable)),
                            with_priority(r_new, OwnedPriority::NotAssignable),
                            old(self).config.process_scheduler.assignments,
                        )
                })
                &&& (match action {
                    Some(a) => a.0 == pid && is_effective_profile(*final(self), r_new, Some(a.1)),
                    None => is_effective_profile(*final(self), r_new, None),
                })
            }),
    {
        let ghost s0 = self.process_map.procs@;
        let parent_opt = match self.process_map.index_of_pid(parent_pid) {
            Some(_) => Some(parent_pid),
            None => None,
        };
        let mut cmdline = cmdline;
        let mut cgroup = String::new();
        if alive {
            if cmdline.as_str().is_empty() {
                cmdline = match observed_cmdline {
                    Some(c) => c,
                    None => String::new(),
                };
            }
            cgroup = match observed_cgroup {
                Some(c) => c,
                None => String::new(),
            };
        }
        let candidate = Process {
            id: pid,
            parent_id: parent_pid,
            name,
            cgroup,
            cmdline,
            forked_cmdline: String::new(),
            forked_name: String::new(),
            parent: parent_opt,
            assigned_priority: OwnedPriority::NotAssignable,
            pipewire_ancestor: None,
        };
        let idx = self.process_map.insert(candidate);
        let ghost s1 = self.process_map.procs@;
        let anc = self.process_map.ancestors_of(idx);
        let ghost chain1 = record_chain(s1, s1[idx as int]);
        proof {
            assert(chain1 == chain_pids(s1, s1[idx as int].parent, s1.len() as nat));
            lemma_chain_elements_contained(s1, s1[idx as int].parent, s1.len() as nat);
        }
        let mut hit: Option<u32> = None;
        let alen = anc.len();
        let mut k: usize = 0;
        proof {
            assert(chain1.skip(0) =~= chain1);
        }
        while k < alen && hit.is_none()
            invariant
                k <= alen,
                alen == chain1.len(),
                self.process_map.procs@ == s1,
                self.wf(),
                idx < s1.len(),
                ancestors_listed(s1, s1[idx as int], anc@),
                chain1 == record_chain(s1, s1[idx as int]),
                match hit {
                    Some(q) => Some(q) == first_pw_hit(s1, chain1, self.pipewire_processes@),
                    None => first_pw_hit(s1, chain1, self.pipewire_processes@) == first_pw_hit(
                        s1,
                        chain1.skip(k as int),
                        self.pipewire_processes@,
                    ),
                },
            decreases alen - k,
        {
            proof {
                assert(chain1.skip(k as int)[0] == chain1[k as int]);
                assert(chain1.skip(k as int).skip(1) =~= chain1.skip(k + 1 as int));
            }
            let j = anc[k];
            let a_id = self.process_map.procs[j].id;
            let a_parent_id = self.process_map.procs[j].parent_id;
            proof {
                assert(s1[j as int] == record_of(s1, chain1[k as int]));
            }
            hit = self.pw_list_hit(a_id, a_parent_id, Ghost(s1[j as int]));
            if hit.is_some() {
                k = alen;
            } else {
                k = k + 1;
            }
        }
        proof {
            if hit is None {
                assert(chain1.skip(alen as int).len() == 0);
            }
            assert(hit == first_pw_hit(s1, chain1, self.pipewire_processes@));
        }
        match hit {
            Some(q) => {
                let mut rec = self.process_map.procs[idx].clone();
                rec.pipewire_ancestor = Some(q);
                self.process_map.procs.set(idx, rec);
                proof {
                    assert(pids_unique(self.process_map.procs@));
                    assert forall|m: int|
                        0 <= m < self.process_map.procs@.len() implies (
                    #[trigger] self.process_map.procs@[m].parent matches Some(p) ==> contains_pid(
                        self.process_map.procs@,
                        p,
                    )) by {
                        match self.process_map.procs@[m].parent {
                            Some(p) => {
                                assert(contains_pid(s1, p));
                                let w = choose|w: int| 0 <= w < s1.len() && s1[w].id == p;
                                assert(self.process_map.procs@[w].id == p);
                            },
                            None => {},
                        }
                    }
                }
            },
            None => {},
        }
        let ghost s2 = self.process_map.procs@;
        self.assign_process_priority(idx);
        let ghost sf = self.process_map.procs@;
        let action_profile = self.apply_process_priority(idx);
        proof {
            assert(sf[idx as int].id == pid);
            assert(contains_pid(sf, pid));
            assert(record_of(sf, pid) == sf[idx as int]) by {
                let j = crate::process::pid_index(sf, pid);
                assert(sf[j].id == pid);
                if j != idx {
                    assert(sf[j].id != sf[idx as int].id);
                }
            }
            assert forall|y: u32|
                y != pid implies #[trigger] contains_pid(sf, y) == contains_pid(s0, y) by {
                if contains_pid(sf, y) {
                    let m = choose|m: int| 0 <= m < sf.len() && sf[m].id == y;
                    assert(m != idx);
                    assert(s0[m].id == y);
                }
                if contains_pid(s0, y) {
                    let m = choose|m: int| 0 <= m < s0.len() && s0[m].id == y;
                    assert(m != idx);
                    assert(sf[m].id == y);
                }
            }
            assert forall|y: u32|
                y != pid && #[trigger] contains_pid(s0, y) implies record_of(sf, y) == record_of(
                s0,
                y,
            ) by {
                let m0 = crate::process::pid_index(s0, y);
                let mf = crate::process::pid_index(sf, y);
                assert(s0[m0].id == y);
                assert(contains_pid(sf, y));
                assert(sf[mf].id == y);
                assert(m0 != idx);
                assert(sf[m0].id == y);
                if mf != m0 {
                    assert(sf[mf].id != sf[m0].id);
                }
                assert(sf[m0] == s0[m0]);
            }
            assert(links_agree(s1, sf));
            lemma_chain_agree(s1, sf, s1[idx as int].parent, s1.len() as nat);
            assert(record_chain(sf, sf[idx as int]) == chain1);
            lemma_first_pw_hit_agree(s1, sf, chain1, old(self).pipewire_processes@);
            if !(s2[idx as int].assigned_priority is NotAssignable) {
            } else {
                assert(s2 =~= sf.update(
                    idx as int,
                    with_priority(sf[idx as int], OwnedPriority::NotAssignable),
                ));
            }
        }
        match action_profile {
            Some(p) => Some((pid, p)),
            None => None,
        }
    }
}

/// One process seen while enumerating `/proc` during a refresh sweep.
/// Kernel threads, which expose no executable, are left out by the
/// reader.
#[derive(Debug)]
pub struct ProcObservation {
    /// The enumerated PID
    pub pid: u32,
    /// Its parent PID, when the status file showed one
    pub ppid: Option<u32>,
    /// The resolved executable path
    pub cmdline: String,
    /// The record's control group, when one was readable
    pub cgroup: Option<String>,
}

/// Whether some observation carries this PID.
pub open spec fn obs_has_pid(obs: Seq<ProcObservation>, pid: u32) -> bool {
    exists|k: int| 0 <= k < obs.len() && obs[k].pid == pid
}

/// Whether observation `k` saves `y` from the sweep: it carries `y`
/// itself, or `y` sits on its record's ancestor chain.
pub open spec fn obs_retains(obs: Seq<ProcObservation>, k: int, s: Seq<Process>, y: u32) -> bool {
    obs[k].pid == y || ancestor_pids(s, obs[k].pid).contains(y)
}

/// Inserting a record changes exactly the presence of its own PID.
proof fn lemma_inserted_contains(s0: Seq<Process>, s1: Seq<Process>, p: Process, i: int)
    requires
        crate::process::inserted(s0, s1, p, i),
    ensures
        forall|y: u32| #[trigger] contains_pid(s1, y) == (contains_pid(s0, y) || y == p.id),
{
    assert forall|y: u32|
        #[trigger] contains_pid(s1, y) == (contains_pid(s0, y) || y == p.id) by {
        if contains_pid(s0, p.id) {
            if contains_pid(s1, y) {
                let m = choose|m: int| 0 <= m < s1.len() && s1[m].id == y;
                if m == i {
                    assert(s0[m].id == p.id);
                    assert(s1[m].id == p.id);
                } else {
                    assert(s1[m] == s0[m]);
                }
                assert(contains_pid(s0, y) || y == p.id);
            }
            if contains_pid(s0, y) {
                let m = choose|m: int| 0 <= m < s0.len() && s0[m].id == y;
                if m == i {
                    assert(s1[m].id == p.id);
                    assert(s0[m].id == p.id);
                    assert(y == p.id);
                    assert(s1[m].id == y);
                } else {
                    assert(s1[m] == s0[m]);
                }
                assert(contains_pid(s1, y));
            }
            if y == p.id {
                assert(s1[i].id == p.id);
                assert(contains_pid(s1, y));
            }
        } else {
            assert(s1 == s0.push(p));
            if contains_pid(s1, y) {
                let m = choose|m: int| 0 <= m < s1.len() && s1[m].id == y;
                if m < s0.len() {
                    assert(s0[m].id == y);
                } else {
                    assert(s1[m] == p);
                }
            }
            if contains_pid(s0, y) {
                let m = choose|m: int| 0 <= m < s0.len() && s0[m].id == y;
                assert(s1[m].id == y);
            }
            if y == p.id {
                assert(s1[s0.len() as int].id == y);
            }
        }
    }
}

impl Service {
    /// Refreshes the process map from a full `/proc` enumeration: every
    /// observed process is inserted or updated in place, parent links are
    /// resolved, records the sweep no longer sees are removed unless an
    /// observed record's ancestor chain still needs them, surviving
    /// unclassified records are classified and their priority actions
    /// issued, and a previously focused PID has its focus change
    /// re-issued.
    #[verifier::spinoff_prover]
    #[verifier::rlimit(100)]
    pub fn process_map_refresh(&mut self, observations: Vec<ProcObservation>) -> (actions: Vec<(
        u32,
        Profile,
    )>)
        requires
            old(self).wf(),
        ensures
            final(self).wf(),
            final(self).config == old(self).config,
            final(self).cfs_paths == old(self).cfs_paths,
            final(self).pipewire_processes@ == old(self).pipewire_processes@,
            final(self).process_map.drain@.len() == 0,
            forall|y: u32|
                #[trigger] contains_pid(final(self).process_map.procs@, y) ==> obs_has_pid(
                    observations@,
                    y,
                ) || contains_pid(old(self).process_map.procs@, y),
            forall|k: int|
                0 <= k < observations@.len() ==> contains_pid(
                    final(self).process_map.procs@,
                    #[trigger] observations@[k].pid,
                ),
            forall|y: u32|
                #[trigger] contains_pid(final(self).process_map.procs@, y) && !obs_has_pid(
                    observations@,
                    y,
                ) ==> exists|o: u32|
                    #[trigger] obs_has_pid(observations@, o) && contains_pid(
                        final(self).process_map.procs@,
                        o,
                    ) && reaches(final(self).process_map.procs@, o, y),
            ({
                let sf = final(self).process_map.procs@;
                let a = old(self).config.process_scheduler.assignments;
                exists|swept: Seq<Process>|
                    #![trigger swept.len()]
                    {
                        &&& swept.len() == sf.len()
                        &&& (forall|j: int|
                            0 <= j < sf.len() ==> same_but_priority(#[trigger] swept[j], sf[j]))
                        &&& (forall|j: int|
                            0 <= j < sf.len() ==> sf[j].assigned_priority == (if (
                            #[trigger] swept[j]).assigned_priority is NotAssignable {
                                verdict_of(swept, swept[j], a)
                            } else {
                                swept[j].assigned_priority
                            }))
                        &&& (forall|j: int|
                            0 <= j < sf.len() ==> ((#[trigger] swept[j]).assigned_priority
                                is NotAssignable || (contains_pid(
                                old(self).process_map.procs@,
                                swept[j].id,
                            ) && swept[j].assigned_priority == record_of(
                                old(self).process_map.procs@,
                                swept[j].id,
                            ).assigned_priority)))
                    }
            }),
            ({
                let sf = final(self).process_map.procs@;
                let n = emit_count(sf);
                &&& actions@.len() >= n
                &&& (forall|j: int|
                    0 <= j < sf.len() && emits_action(#[trigger] sf[j]) ==> ({
                        let m = emit_count(sf.take(j));
                        &&& 0 <= m < n
                        &&& actions@[m].0 == sf[j].id
                        &&& effective_profile_parts(
                            old(self).config.process_scheduler.pipewire,
                            old(self).config.process_scheduler.foreground,
                            old(self).foreground,
                            old(self).foreground_processes@,
                            old(self).pipewire_processes@,
                            sf[j],
                            Some(actions@[m].1),
                        )
                    }))
                &&& (match (old(self).foreground, old(self).config.process_scheduler.foreground) {
                    (Some(f), Some(fa)) => actions@ == actions@.take(n) + fg_actions(
                        sf,
                        sf,
                        f,
                        old(self).pipewire_processes@,
                        fa,
                    ),
                    _ => actions@.len() == n,
                })
            }),
            ({
                let sf = final(self).process_map.procs@;
                match old(self).foreground {
                    Some(f) => match old(self).config.process_scheduler.foreground {
                        Some(fa) => {
                            &&& final(self).foreground == Some(f)
                            &&& final(self).foreground_processes@ == seq![f] + fg_tail(sf, sf, f)
                        },
                        None => {
                            &&& final(self).foreground == old(self).foreground
                            &&& final(self).foreground_processes@ == old(
                                self,
                            ).foreground_processes@
                        },
                    },
                    None => {
                        &&& final(self).foreground is None
                        &&& final(self).foreground_processes@ == old(self).foreground_processes@
                    },
                }
            }),
    {
        let ghost s0 = self.process_map.procs@;
        let ghost obs = observations@;
        self.process_map.drain_filter_prepare();
        proof {
            assert forall|j: int| 0 <= j < s0.len() implies #[trigger] s0[j] == record_of(
                s0,
                s0[j].id,
            ) by {
                let w = crate::process::pid_index(s0, s0[j].id);
                assert(contains_pid(s0, s0[j].id));
                assert(s0[w].id == s0[j].id);
                if w != j {
                    assert(s0[w].id != s0[j].id);
                }
            }
        }
        let obs_len = observations.len();
        let mut i: usize = 0;
        while i < obs_len
            invariant
                i <= obs_len,
                obs_len == obs.len(),
                observations@ == obs,
                self.wf(),
                self.config == old(self).config,
                self.cfs_paths == old(self).cfs_paths,
                self.foreground == old(self).foreground,
                self.foreground_processes@ == old(self).foreground_processes@,
                self.pipewire_processes@ == old(self).pipewire_processes@,
                forall|y: u32|
                    #[trigger] contains_u32(self.process_map.drain@, y) <==> contains_pid(s0, y),
                forall|y: u32|
                    #[trigger] contains_pid(self.process_map.procs@, y) ==> contains_pid(s0, y)
                        || (exists|k: int| 0 <= k < i && obs[k].pid == y),
                forall|k: int|
                    0 <= k < i ==> contains_pid(self.process_map.procs@, #[trigger] obs[k].pid),
                forall|j: int|
                    0 <= j < self.process_map.procs@.len() ==> ((
                    #[trigger] self.process_map.procs@[j]).assigned_priority is NotAssignable || (
                    contains_pid(s0, self.process_map.procs@[j].id)
                        && self.process_map.procs@[j].assigned_priority == record_of(
                        s0,
                        self.process_map.procs@[j].id,
                    ).assigned_priority)),
            decreases obs_len - i,
        {
            let ghost before = self.process_map.procs@;
            let o = &observations[i];
            let pid = o.pid;
            let parent_pid = match o.ppid {
                Some(p) => p,
                None => 0,
            };
            let nm = crate::procfs::name(o.cmdline.as_str()).to_owned();
            let cg = match &o.cgroup {
                Some(c) => c.clone(),
                None => String::new(),
            };
            let candidate = Process {
                id: pid,
                parent_id: parent_pid,
                name: nm,
                cgroup: cg,
                cmdline: o.cmdline.clone(),
                forked_cmdline: String::new(),
                forked_name: String::new(),
                parent: None,
                assigned_priority: OwnedPriority::NotAssignable,
                pipewire_ancestor: None,
            };
            let ghost cand = candidate;
            let idx = self.process_map.insert(candidate);
            proof {
                lemma_inserted_contains(before, self.process_map.procs@, cand, idx as int);
                assert forall|k: int|
                    0 <= k < i + 1 implies contains_pid(
                    self.process_map.procs@,
                    #[trigger] obs[k].pid,
                ) by {
                    if k < i {
                        assert(contains_pid(before, obs[k].pid));
                    }
                }
                assert forall|j: int|
                    0 <= j < self.process_map.procs@.len() implies ((
                #[trigger] self.process_map.procs@[j]).assigned_priority is NotAssignable || (
                contains_pid(s0, self.process_map.procs@[j].id)
                    && self.process_map.procs@[j].assigned_priority == record_of(
                    s0,
                    self.process_map.procs@[j].id,
                ).assigned_priority)) by {
                    if j < before.len() && j != idx {
                        assert(self.process_map.procs@[j] == before[j]);
                    } else if j == idx && contains_pid(before, cand.id) {
                        assert(self.process_map.procs@[idx as int].id == before[idx as int].id);
                    }
                }
            }
            i = i + 1;
        }
        let ghost s_ins = self.process_map.procs@;
        let mut i: usize = 0;
        while i < obs_len
            invariant
                i <= obs_len,
                obs_len == obs.len(),
                observations@ == obs,
                self.wf(),
                self.config == old(self).config,
                self.cfs_paths == old(self).cfs_paths,
                self.foreground == old(self).foreground,
                self.foreground_processes@ == old(self).foreground_processes@,
                self.pipewire_processes@ == old(self).pipewire_processes@,
                self.process_map.procs@.len() == s_ins.len(),
                forall|j: int|
                    0 <= j < s_ins.len() ==> (#[trigger] self.process_map.procs@[j]).id
                        == s_ins[j].id && self.process_map.procs@[j].assigned_priority
                        == s_ins[j].assigned_priority,
                forall|y: u32|
                    #[trigger] contains_u32(self.process_map.drain@, y) <==> contains_pid(s0, y),
                forall|y: u32|
                    #[trigger] contains_pid(self.process_map.procs@, y) == contains_pid(s_ins, y),
            decreases obs_len - i,
        {
            let o = &observations[i];
            match o.ppid {
                Some(ppid) => {
                    let child_idx = self.process_map.index_of_pid(o.pid);
                    let parent_present = self.process_map.index_of_pid(ppid).is_some();
                    match child_idx {
                        Some(j) => {
                            if parent_present {
                                let ghost before = self.process_map.procs@;
                                let mut rec = self.process_map.procs[j].clone();
                                rec.parent = Some(ppid);
                                self.process_map.procs.set(j, rec);
                                proof {
                                    assert(pids_unique(self.process_map.procs@));
                                    assert forall|m: int|
                                        0 <= m < self.process_map.procs@.len() implies (
                                    #[trigger] self.process_map.procs@[m].parent matches Some(p)
                                        ==> contains_pid(self.process_map.procs@, p)) by {
                                        match self.process_map.procs@[m].parent {
                                            Some(p) => {
                                                assert(contains_pid(before, p));
                                                let w = choose|w: int|
                                                    0 <= w < before.len() && before[w].id == p;
                                                assert(self.process_map.procs@[w].id == p);
                                            },
                                            None => {},
                                        }
                                    }
                                    assert forall|y: u32|
                                        #[trigger] contains_pid(self.process_map.procs@, y)
                                            == contains_pid(s_ins, y) by {
                                        if contains_pid(self.process_map.procs@, y) {
                                            let m = choose|m: int|
                                                0 <= m < self.process_map.procs@.len()
                                                    && self.process_map.procs@[m].id == y;
                                            assert(s_ins[m].id == y);
                                        }
                                        if contains_pid(s_ins, y) {
                                            let m = choose|m: int|
                                                0 <= m < s_ins.len() && s_ins[m].id == y;
                                            assert(self.process_map.procs@[m].id == y);
                                        }
                                    }
                                }
                            }
                        },
                        None => {},
                    }
                },
                None => {},
            }
            i = i + 1;
        }
        let ghost s_link = self.process_map.procs@;
        let mut i: usize = 0;
        while i < obs_len
            invariant
                i <= obs_len,
                obs_len == obs.len(),
                observations@ == obs,
                self.wf(),
                self.config == old(self).config,
                self.cfs_paths == old(self).cfs_paths,
                self.foreground == old(self).foreground,
                self.foreground_processes@ == old(self).foreground_processes@,
                self.pipewire_processes@ == old(self).pipewire_processes@,
                self.process_map.procs@ == s_link,
                forall|y: u32|
                    #[trigger] contains_u32(self.process_map.drain@, y) ==> contains_pid(s0, y),
                forall|k: int|
                    0 <= k < i ==> !contains_u32(
                        self.process_map.drain@,
                        #[trigger] obs[k].pid,
                    ),
                forall|y: u32|
                    contains_pid(s0, y) && !(#[trigger] contains_u32(
                        self.process_map.drain@,
                        y,
                    )) ==> exists|k: int| 0 <= k < i && #[trigger] obs_retains(obs, k, s_link, y),
                forall|k: int, y: u32|
                    0 <= k < i && #[trigger] ancestor_pids(s_link, obs[k].pid).contains(y)
                        ==> !contains_u32(self.process_map.drain@, y),
            decreases obs_len - i,
        {
            let ghost dr0 = self.process_map.drain@;
            let pid = observations[i].pid;
            self.process_map.retain_process_tree(pid);
            proof {
                assert forall|y: u32|
                    contains_pid(s0, y) && !(#[trigger] contains_u32(
                        self.process_map.drain@,
                        y,
                    )) implies exists|k: int|
                    0 <= k < i + 1 && #[trigger] obs_retains(obs, k, s_link, y) by {
                    if contains_u32(dr0, y) {
                        assert(y == pid || ancestor_pids(s_link, pid).contains(y));
                        assert(obs_retains(obs, i as int, s_link, y));
                    } else {
                        let k = choose|k: int|
                            0 <= k < i && #[trigger] obs_retains(obs, k, s_link, y);
                        assert(obs_retains(obs, k, s_link, y));
                    }
                }
                assert forall|k: int, y: u32|
                    0 <= k < i + 1 && #[trigger] ancestor_pids(s_link, obs[k].pid).contains(
                        y,
                    ) implies !contains_u32(self.process_map.drain@, y) by {
                    if k < i {
                        assert(!contains_u32(dr0, y));
                    } else {
                        assert(obs[k].pid == pid);
                    }
                }
            }
            i = i + 1;
        }
        let ghost drain_before = self.process_map.drain@;
        self.process_map.drain_filter();
        let ghost s_swept = self.process_map.procs@;
        proof {
            assert forall|y: u32|
                #[trigger] contains_pid(s_swept, y) implies obs_has_pid(obs, y) || contains_pid(
                s0,
                y,
            ) by {
                assert(contains_pid(s_link, y));
                assert(contains_pid(s_ins, y));
            }
            assert forall|k: int|
                0 <= k < obs.len() implies contains_pid(s_swept, #[trigger] obs[k].pid) by {
                assert(contains_pid(s_ins, obs[k].pid));
                assert(contains_pid(s_link, obs[k].pid));
                assert(!contains_u32(drain_before, obs[k].pid));
            }
        }
        let ghost a_g = self.config.process_scheduler.assignments;
        let mut verdicts: Vec<OwnedPriority> = Vec::new();
        let len = self.process_map.procs.len();
        let mut i: usize = 0;
        while i < len
            invariant
                i <= len,
                len == s_swept.len(),
                self.wf(),
                self.config == old(self).config,
                self.cfs_paths == old(self).cfs_paths,
                self.foreground == old(self).foreground,
                self.foreground_processes@ == old(self).foreground_processes@,
                self.pipewire_processes@ == old(self).pipewire_processes@,
                self.process_map.drain@.len() == 0,
                self.process_map.procs@ == s_swept,
                a_g == old(self).config.process_scheduler.assignments,
                verdicts@.len() == i,
                forall|j: int|
                    0 <= j < i ==> #[trigger] verdicts@[j] == (if s_swept[j].assigned_priority
                        is NotAssignable {
                        verdict_of(s_swept, s_swept[j], a_g)
                    } else {
                        s_swept[j].assigned_priority
                    }),
            decreases len - i,
        {
            let unclassified = match &self.process_map.procs[i].assigned_priority {
                OwnedPriority::NotAssignable => true,
                _ => false,
            };
            if unclassified {
                let v = self.classify(i);
                verdicts.push(v);
            } else {
                verdicts.push(self.process_map.procs[i].assigned_priority.clone());
            }
            i = i + 1;
        }
        let mut actions: Vec<(u32, Profile)> = Vec::new();
        let mut i: usize = 0;
        proof {
            assert(self.process_map.procs@.take(0) =~= Seq::<Process>::empty());
        }
        while i < len
            invariant
                i <= len,
                len == s_swept.len(),
                self.wf(),
                self.config == old(self).config,
                self.cfs_paths == old(self).cfs_paths,
                self.foreground == old(self).foreground,
                self.foreground_processes@ == old(self).foreground_processes@,
                self.pipewire_processes@ == old(self).pipewire_processes@,
                self.process_map.drain@.len() == 0,
                self.process_map.procs@.len() == s_swept.len(),
                verdicts@.len() == len,
                forall|j: int|
                    0 <= j < len ==> #[trigger] verdicts@[j] == (if s_swept[j].assigned_priority
                        is NotAssignable {
                        verdict_of(s_swept, s_swept[j], a_g)
                    } else {
                        s_swept[j].assigned_priority
                    }),
                forall|j: int| i <= j < len ==> #[trigger] self.process_map.procs@[j] == s_swept[j],
                forall|j: int|
                    0 <= j < i ==> same_but_priority(
                        s_swept[j],
                        #[trigger] self.process_map.procs@[j],
                    ) && self.process_map.procs@[j].assigned_priority == verdicts@[j],
                actions@.len() == emit_count(self.process_map.procs@.take(i as int)),
                forall|j: int|
                    0 <= j < i && emits_action(#[trigger] self.process_map.procs@[j]) ==> ({
                        let m = emit_count(self.process_map.procs@.take(j));
                        &&& 0 <= m < actions@.len()
                        &&& actions@[m].0 == self.process_map.procs@[j].id
                        &&& effective_profile_parts(
                            old(self).config.process_scheduler.pipewire,
                            old(self).config.process_scheduler.foreground,
                            old(self).foreground,
                            old(self).foreground_processes@,
                            old(self).pipewire_processes@,
                            self.process_map.procs@[j],
                            Some(actions@[m].1),
                        )
                    }),
            decreases len - i,
        {
            let ghost before = self.process_map.procs@;
            let mut rec = self.process_map.procs[i].clone();
            rec.assigned_priority = verdicts[i].clone();
            self.process_map.procs.set(i, rec);
            proof {
                assert(pids_unique(self.process_map.procs@));
                assert forall|m: int|
                    0 <= m < self.process_map.procs@.len() implies (
                #[trigger] self.process_map.procs@[m].parent matches Some(p) ==> contains_pid(
                    self.process_map.procs@,
                    p,
                )) by {
                    match self.process_map.procs@[m].parent {
                        Some(p) => {
                            assert(contains_pid(before, p));
                            let w = choose|w: int| 0 <= w < before.len() && before[w].id == p;
                            assert(self.process_map.procs@[w].id == p);
                        },
                        None => {},
                    }
                }
                assert forall|j: int|
                    0 <= j <= i implies self.process_map.procs@.take(j) =~= before.take(j) by {}
                assert(actions@.len() == emit_count(self.process_map.procs@.take(i as int)));
            }
            let applied = self.apply_process_priority(i);
            let ghost cur_take_next = self.process_map.procs@.take(i + 1 as int);
            proof {
                assert(cur_take_next.drop_last() =~= self.process_map.procs@.take(i as int));
                assert(cur_take_next.last() == self.process_map.procs@[i as int]);
            }
            match applied {
                Some(p) => {
                    actions.push((self.process_map.procs[i].id, p));
                    proof {
                        assert(emits_action(self.process_map.procs@[i as int]));
                    }
                },
                None => {
                    proof {
                        assert(!emits_action(self.process_map.procs@[i as int]));
                    }
                },
            }
            i = i + 1;
        }
        proof {
            let cur = self.process_map.procs@;
            assert forall|y: u32|
                #[trigger] contains_pid(cur, y) == contains_pid(s_swept, y) by {
                if contains_pid(cur, y) {
                    let m = choose|m: int| 0 <= m < cur.len() && cur[m].id == y;
                    assert(s_swept[m].id == y);
                }
                if contains_pid(s_swept, y) {
                    let m = choose|m: int| 0 <= m < s_swept.len() && s_swept[m].id == y;
                    assert(cur[m].id == y);
                }
            }
            assert(links_agree(s_swept, cur));
            assert(pids_unique(s_swept));
            assert(pids_unique(cur));
            assert forall|y: u32|
                #[trigger] contains_pid(cur, y) && !obs_has_pid(obs, y) implies exists|o: u32|
                #[trigger] obs_has_pid(obs, o) && contains_pid(cur, o) && reaches(cur, o, y) by {
                assert(contains_pid(s_swept, y));
                assert(contains_pid(s_link, y));
                assert(!contains_u32(drain_before, y));
                assert(contains_pid(s_ins, y));
                if !contains_pid(s0, y) {
                    assert(obs_has_pid(obs, y));
                }
                let k = choose|k: int| 0 <= k < obs.len() && #[trigger] obs_retains(obs, k, s_link, y);
                assert(obs_retains(obs, k, s_link, y));
                let o = obs[k].pid;
                assert(obs_has_pid(obs, o));
                if o == y {
                    assert(obs_has_pid(obs, y));
                }
                assert(ancestor_pids(s_link, o).contains(y));
                assert(contains_pid(s_swept, o));
                assert(contains_pid(cur, o));
                assert(contains_pid(s_ins, o));
                assert(contains_pid(s_link, o));
                let full = ancestor_pids(s_link, o);
                let link_o = record_of(s_link, o).parent;
                assert(full == chain_pids(s_link, link_o, s_link.len() as nat));
                let m = choose|m: int| 0 <= m < full.len() && full[m] == y;
                crate::process::lemma_chain_len_le_fuel(s_link, link_o, s_link.len() as nat);
                lemma_chain_prefix(s_link, link_o, (m + 1) as nat, s_link.len() as nat);
                let c1 = chain_pids(s_link, link_o, (m + 1) as nat);
                assert(c1.len() == m + 1);
                assert(c1[m] == y);
                lemma_chain_elements_contained(s_link, link_o, s_link.len() as nat);
                lemma_chain_steps(s_link, link_o, s_link.len() as nat);
                assert forall|j: int|
                    0 <= j < c1.len() implies contains_pid(s_swept, #[trigger] c1[j])
                        && !contains_u32(drain_before, c1[j]) && contains_pid(
                        s_link,
                        c1[j],
                    ) by {
                    assert(c1[j] == full[j]);
                    assert(full.contains(c1[j]));
                    assert(ancestor_pids(s_link, obs[k].pid).contains(c1[j]));
                    assert(!contains_u32(drain_before, c1[j]));
                    assert(contains_pid(s_link, c1[j]));
                }
                assert forall|j: int|
                    0 <= j && j + 1 < m + 1 implies record_of(s_swept, #[trigger] c1[j]).parent
                        == record_of(s_link, c1[j]).parent by {
                    assert(c1[j] == full[j]);
                    assert(c1[j + 1] == full[j + 1]);
                    assert(record_of(s_link, full[j]).parent == Some(full[j + 1]));
                    assert(contains_pid(s_link, full[j + 1]) && !contains_u32(
                        drain_before,
                        full[j + 1],
                    ));
                    assert(same_but_parent(
                        record_of(s_link, c1[j]),
                        record_of(s_swept, c1[j]),
                        surviving_link(record_of(s_link, c1[j]).parent, s_link, drain_before),
                    ));
                }
                assert forall|q: u32| #[trigger] contains_pid(s_swept, q) implies contains_pid(
                    s_link,
                    q,
                ) by {}
                lemma_chain_transfer(s_link, s_swept, link_o, (m + 1) as nat);
                assert(record_of(s_swept, o).parent == link_o) by {
                    assert(same_but_parent(
                        record_of(s_link, o),
                        record_of(s_swept, o),
                        surviving_link(link_o, s_link, drain_before),
                    ));
                    match link_o {
                        Some(q) => {
                            assert(full.len() > 0);
                            if !contains_pid(s_link, q) {
                                assert(full.len() == 0);
                            }
                            assert(full[0] == q);
                            assert(c1[0] == full[0]);
                            assert(contains_pid(s_link, q) && !contains_u32(drain_before, q));
                        },
                        None => {},
                    }
                }
                assert(chain_pids(s_swept, link_o, (m + 1) as nat) == c1);
                lemma_chain_agree(s_swept, cur, link_o, (m + 1) as nat);
                lemma_record_of_agree(s_swept, cur, o);
                assert(chain_pids(cur, record_of(cur, o).parent, (m + 1) as nat).contains(y)) by {
                    assert(chain_pids(cur, link_o, (m + 1) as nat) == c1);
                    assert(record_of(cur, o).parent == record_of(s_swept, o).parent);
                    assert(c1[m] == y);
                }
                assert(reaches(cur, o, y));
            }
            assert(s_swept.len() == cur.len());
            assert forall|j: int|
                0 <= j < cur.len() implies same_but_priority(#[trigger] s_swept[j], cur[j]) by {}
            assert forall|j: int|
                0 <= j < s_swept.len() implies ((#[trigger] s_swept[j]).assigned_priority
                is NotAssignable || (contains_pid(s0, s_swept[j].id)
                && s_swept[j].assigned_priority == record_of(
                s0,
                s_swept[j].id,
            ).assigned_priority)) by {
                let y = s_swept[j].id;
                assert(contains_pid(s_swept, y));
                assert(s_swept[j] == record_of(s_swept, y)) by {
                    let w = crate::process::pid_index(s_swept, y);
                    assert(s_swept[w].id == y);
                    if w != j {
                        assert(s_swept[w].id != s_swept[j].id);
                    }
                }
                assert(contains_pid(s_link, y));
                assert(same_but_parent(
                    record_of(s_link, y),
                    record_of(s_swept, y),
                    surviving_link(record_of(s_link, y).parent, s_link, drain_before),
                ));
                let wl = crate::process::pid_index(s_link, y);
                assert(s_link[wl].id == y);
                assert(record_of(s_link, y) == s_link[wl]);
                assert(s_link[wl].assigned_priority == s_ins[wl].assigned_priority);
                assert(s_ins[wl].id == y);
            }
            assert(cur.take(len as int) =~= cur);
        }
        let ghost n_prefix = actions@.len();
        let focused = self.foreground;
        match focused {
            Some(f) => {
                let mut fg_actions_vec = self.set_foreground_process(f);
                let ghost prefix = actions@;
                actions.append(&mut fg_actions_vec);
                proof {
                    assert(actions@.take(n_prefix as int) =~= prefix);
                    assert(forall|m: int| 0 <= m < n_prefix ==> #[trigger] actions@[m] == prefix[m]);
                }
            },
            None => {},
        }
        actions
    }
}

/// One process found while scanning the child tree of a PID.
#[derive(Debug)]
pub struct ChildObservation {
    /// The child PID
    pub pid: u32,
    /// Its parent PID
    pub ppid: u32,
    /// The resolved executable path
    pub cmdline: String,
    /// Whether the PID still existed when it was scanned
    pub alive: bool,
    /// The control group read for it, when one was readable
    pub observed_cgroup: Option<String>,
}

/// Whether some child observation carries this PID.
pub open spec fn child_obs_has_pid(obs: Seq<ChildObservation>, pid: u32) -> bool {
    exists|k: int| 0 <= k < obs.len() && obs[k].pid == pid
}

/// Whether observation `k` is the first in the scan to carry its PID.
pub open spec fn first_scan_of(obs: Seq<ChildObservation>, k: int) -> bool {
    forall|j: int| 0 <= j < k ==> (#[trigger] obs[j]).pid != obs[k].pid
}

impl Service {
    /// Assigns children of a process in case they've not been assigned:
    /// every scanned process that has no record yet is admitted through
    /// `assign_new_process`; records that already exist are left alone.
    #[verifier::spinoff_prover]
    pub fn assign_children(&mut self, scanned: Vec<ChildObservation>) -> (actions: Vec<(
        u32,
        Profile,
    )>)
        requires
            old(self).wf(),
        ensures
            final(self).wf(),
            final(self).config == old(self).config,
            final(self).cfs_paths == old(self).cfs_paths,
            final(self).foreground == old(self).foreground,
            final(self).foreground_processes@ == old(self).foreground_processes@,
            final(self).pipewire_processes@ == old(self).pipewire_processes@,
            final(self).process_map.drain@ == old(self).process_map.drain@,
            forall|k: int|
                0 <= k < scanned@.len() ==> contains_pid(
                    final(self).process_map.procs@,
                    #[trigger] scanned@[k].pid,
                ),
            forall|y: u32|
                #[trigger] contains_pid(final(self).process_map.procs@, y) ==> contains_pid(
                    old(self).process_map.procs@,
                    y,
                ) || child_obs_has_pid(scanned@, y),
            forall|y: u32|
                #[trigger] contains_pid(old(self).process_map.procs@, y) ==> contains_pid(
                    final(self).process_map.procs@,
                    y,
                ) && record_of(final(self).process_map.procs@, y) == record_of(
                    old(self).process_map.procs@,
                    y,
                ),
            forall|k: int|
                0 <= k < scanned@.len() && !contains_pid(
                    old(self).process_map.procs@,
                    (#[trigger] scanned@[k]).pid,
                ) && first_scan_of(scanned@, k) ==> ({
                    let r = record_of(final(self).process_map.procs@, scanned@[k].pid);
                    &&& r.id == scanned@[k].pid
                    &&& r.parent_id == scanned@[k].ppid
                    &&& r.name@ == crate::procfs::basename(scanned@[k].cmdline@)
                    &&& cmdline_shape(r.cmdline, scanned@[k].cmdline, scanned@[k].alive, None)
                    &&& cgroup_shape(r.cgroup, scanned@[k].alive, scanned@[k].observed_cgroup)
                    &&& r.forked_name@.len() == 0
                    &&& r.forked_cmdline@.len() == 0
                }),
    {
        let ghost s0 = self.process_map.procs@;
        let ghost obs = scanned@;
        let mut actions: Vec<(u32, Profile)> = Vec::new();
        let len = scanned.len();
        let mut i: usize = 0;
        while i < len
            invariant
                i <= len,
                len == obs.len(),
                scanned@ == obs,
                self.wf(),
                self.config == old(self).config,
                self.cfs_paths == old(self).cfs_paths,
                self.foreground == old(self).foreground,
                self.foreground_processes@ == old(self).foreground_processes@,
                self.pipewire_processes@ == old(self).pipewire_processes@,
                self.process_map.drain@ == old(self).process_map.drain@,
                forall|k: int|
                    0 <= k < i ==> contains_pid(self.process_map.procs@, #[trigger] obs[k].pid),
                forall|y: u32|
                    #[trigger] contains_pid(self.process_map.procs@, y) ==> contains_pid(s0, y)
                        || (exists|k: int| 0 <= k < i && obs[k].pid == y),
                forall|y: u32|
                    #[trigger] contains_pid(s0, y) ==> contains_pid(self.process_map.procs@, y)
                        && record_of(self.process_map.procs@, y) == record_of(s0, y),
                forall|k: int|
                    0 <= k < i && !contains_pid(s0, (#[trigger] obs[k]).pid) && first_scan_of(
                        obs,
                        k,
                    ) ==> ({
                        let r = record_of(self.process_map.procs@, obs[k].pid);
                        &&& r.id == obs[k].pid
                        &&& r.parent_id == obs[k].ppid
                        &&& r.name@ == crate::procfs::basename(obs[k].cmdline@)
                        &&& cmdline_shape(r.cmdline, obs[k].cmdline, obs[k].alive, None)
                        &&& cgroup_shape(r.cgroup, obs[k].alive, obs[k].observed_cgroup)
                        &&& r.forked_name@.len() == 0
                        &&& r.forked_cmdline@.len() == 0
                    }),
            decreases len - i,
        {
            let ghost before = self.process_map.procs@;
            let pid = scanned[i].pid;
            let absent = self.process_map.index_of_pid(pid).is_none();
            if absent {
                let o = &scanned[i];
                let nm = crate::procfs::name(o.cmdline.as_str()).to_owned();
                let cg = match &o.observed_cgroup {
                    Some(c) => Some(c.clone()),
                    None => None,
                };
                let action = self.assign_new_process(
                    o.pid,
                    o.ppid,
                    nm,
                    o.cmdline.clone(),
                    o.alive,
                    None,
                    cg,
                );
                match action {
                    Some(a) => {
                        actions.push(a);
                    },
                    None => {},
                }
                proof {
                    assert forall|y: u32|
                        #[trigger] contains_pid(s0, y) implies contains_pid(
                        self.process_map.procs@,
                        y,
                    ) && record_of(self.process_map.procs@, y) == record_of(s0, y) by {
                        assert(y != pid);
                        assert(contains_pid(before, y));
                        assert(record_of(before, y) == record_of(s0, y));
                    }
                    assert forall|k: int|
                        0 <= k < i + 1 && !contains_pid(s0, (#[trigger] obs[k]).pid)
                            && first_scan_of(obs, k) implies ({
                        let r = record_of(self.process_map.procs@, obs[k].pid);
                        &&& r.id == obs[k].pid
                        &&& r.parent_id == obs[k].ppid
                        &&& r.name@ == crate::procfs::basename(obs[k].cmdline@)
                        &&& cmdline_shape(r.cmdline, obs[k].cmdline, obs[k].alive, None)
                        &&& cgroup_shape(r.cgroup, obs[k].alive, obs[k].observed_cgroup)
                        &&& r.forked_name@.len() == 0
                        &&& r.forked_cmdline@.len() == 0
                    }) by {
                        if k < i {
                            assert(obs[k].pid != pid);
                            assert(record_of(self.process_map.procs@, obs[k].pid) == record_of(
                                before,
                                obs[k].pid,
                            ));
                        } else {
                            assert(!contains_pid(before, pid));
                        }
                    }
                }
            } else {
                proof {
                    assert forall|k: int|
                        0 <= k < i + 1 && !contains_pid(s0, (#[trigger] obs[k]).pid)
                            && first_scan_of(obs, k) implies k < i by {
                        if k == i {
                            assert(contains_pid(self.process_map.procs@, pid));
                            assert(contains_pid(s0, pid) || (exists|j: int|
                                0 <= j < i && obs[j].pid == pid));
                            if !contains_pid(s0, pid) {
                                let j = choose|j: int| 0 <= j < i && obs[j].pid == pid;
                                assert(obs[j].pid == obs[k].pid);
                            }
                        }
                    }
                }
            }
            i = i + 1;
        }
        actions
    }
}

} // verus!
