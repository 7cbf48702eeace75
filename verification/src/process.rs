//! The live process map: one record per observed PID, with parent links,
//! cached verdicts, and the drain set used by the periodic sweep.
//!
//! Records are kept in a vector with pairwise-distinct PIDs.  A parent
//! link names the PID of another record in the map; the sweep clears any
//! link whose target it removes, so links never dangle.

use vstd::prelude::*;

use crate::service::OwnedPriority;
use crate::text::str_eq;

verus! {

/// One record of the process map.
#[derive(Debug)]
pub struct Process {
    /// The process id, the map's key
    pub id: u32,
    /// Parent process id as captured at insertion
    pub parent_id: u32,
    /// Short name: the basename of the cmdline
    pub name: String,
    /// Final component of the control-group path
    pub cgroup: String,
    /// Resolved executable path
    pub cmdline: String,
    /// The cmdline before the last observed rename
    pub forked_cmdline: String,
    /// The name before the last observed rename
    pub forked_name: String,
    /// PID of the linked parent record, when one was present at link time
    pub parent: Option<u32>,
    /// Cached verdict of the rule engine
    pub assigned_priority: OwnedPriority,
    /// PID of the nearest audio-session ancestor, if one was found
    pub pipewire_ancestor: Option<u32>,
}

impl Default for Process {
    /// An empty, unclassified record.
    fn default() -> (r: Self)
        ensures
            r.id == 0,
            r.parent_id == 0,
            r.name@.len() == 0,
            r.cgroup@.len() == 0,
            r.cmdline@.len() == 0,
            r.forked_cmdline@.len() == 0,
            r.forked_name@.len() == 0,
            r.parent is None,
            r.assigned_priority is NotAssignable,
            r.pipewire_ancestor is None,
    {
        Process {
            id: 0,
            parent_id: 0,
            name: String::new(),
            cgroup: String::new(),
            cmdline: String::new(),
            forked_cmdline: String::new(),
            forked_name: String::new(),
            parent: None,
            assigned_priority: OwnedPriority::NotAssignable,
            pipewire_ancestor: None,
        }
    }
}

impl Clone for Process {
    fn clone(&self) -> (r: Self)
        ensures
            r == *self,
    {
        Process {
            id: self.id,
            parent_id: self.parent_id,
            name: self.name.clone(),
            cgroup: self.cgroup.clone(),
            cmdline: self.cmdline.clone(),
            forked_cmdline: self.forked_cmdline.clone(),
            forked_name: self.forked_name.clone(),
            parent: self.parent,
            assigned_priority: self.assigned_priority.clone(),
            pipewire_ancestor: self.pipewire_ancestor,
        }
    }
}

/// Whether `s` holds `x`.
pub open spec fn contains_u32(s: Seq<u32>, x: u32) -> bool {
    exists|i: int| 0 <= i < s.len() && s[i] == x
}

/// The values of `s` are pairwise distinct.
pub open spec fn u32s_unique(s: Seq<u32>) -> bool {
    forall|i: int, j: int| 0 <= i < j < s.len() ==> s[i] != s[j]
}

/// Whether a record with this PID is present.
pub open spec fn contains_pid(s: Seq<Process>, pid: u32) -> bool {
    exists|i: int| 0 <= i < s.len() && s[i].id == pid
}

/// The PIDs of the records are pairwise distinct.
pub open spec fn pids_unique(s: Seq<Process>) -> bool {
    forall|i: int, j: int| 0 <= i < j < s.len() ==> s[i].id != s[j].id
}

/// The index of the record with this PID.
pub open spec fn pid_index(s: Seq<Process>, pid: u32) -> int {
    choose|i: int| 0 <= i < s.len() && s[i].id == pid
}

/// The record with this PID.
pub open spec fn record_of(s: Seq<Process>, pid: u32) -> Process {
    s[pid_index(s, pid)]
}

/// Every parent link names a record that is present.
pub open spec fn links_valid(s: Seq<Process>) -> bool {
    forall|i: int|
        0 <= i < s.len() ==> (#[trigger] s[i].parent matches Some(p) ==> contains_pid(s, p))
}

/// The chain of ancestor PIDs reached by following parent links, cut off
/// by the fuel bound so that it is finite even on corrupt link cycles.
pub open spec fn chain_pids(s: Seq<Process>, link: Option<u32>, fuel: nat) -> Seq<u32>
    decreases fuel,
{
    if fuel == 0 {
        Seq::empty()
    } else {
        match link {
            None => Seq::empty(),
            Some(p) => {
                if contains_pid(s, p) {
                    seq![p] + chain_pids(s, record_of(s, p).parent, (fuel - 1) as nat)
                } else {
                    Seq::empty()
                }
            },
        }
    }
}

/// The ancestor chain of the record with this PID, when it is present.
pub open spec fn ancestor_pids(s: Seq<Process>, pid: u32) -> Seq<u32> {
    if contains_pid(s, pid) {
        chain_pids(s, record_of(s, pid).parent, s.len() as nat)
    } else {
        Seq::empty()
    }
}

/// The two records agree on every field but the parent link, which in `b`
/// holds `link`.
pub open spec fn same_but_parent(a: Process, b: Process, link: Option<u32>) -> bool {
    &&& b.id == a.id
    &&& b.parent_id == a.parent_id
    &&& b.name == a.name
    &&& b.cgroup == a.cgroup
    &&& b.cmdline == a.cmdline
    &&& b.forked_cmdline == a.forked_cmdline
    &&& b.forked_name == a.forked_name
    &&& b.parent == link
    &&& b.assigned_priority == a.assigned_priority
    &&& b.pipewire_ancestor == a.pipewire_ancestor
}

/// The process map, with the drain set of the sweep in progress.
#[derive(Debug)]
pub struct ProcessMap {
    /// The records, one per PID
    pub procs: Vec<Process>,
    /// PIDs marked for removal since the sweep began
    pub drain: Vec<u32>,
}

impl ProcessMap {
    /// Distinct PIDs, no dangling parent link, no duplicate drain mark.
    pub open spec fn wf(self) -> bool {
        &&& pids_unique(self.procs@)
        &&& links_valid(self.procs@)
        &&& u32s_unique(self.drain@)
    }

    /// An empty map.
    pub fn new() -> (r: Self)
        ensures
            r.wf(),
            r.procs@.len() == 0,
            r.drain@.len() == 0,
    {
        ProcessMap { procs: Vec::new(), drain: Vec::new() }
    }

    /// The index of the record with this PID.
    pub fn index_of_pid(&self, pid: u32) -> (r: Option<usize>)
        requires
            self.wf(),
        ensures
            (r is Some) == contains_pid(self.procs@, pid),
            r matches Some(i) ==> i < self.procs@.len() && self.procs@[i as int].id == pid
                && self.procs@[i as int] == record_of(self.procs@, pid),
    {
        let len = self.procs.len();
        let mut i: usize = 0;
        while i < len
            invariant
                i <= len,
                forall|j: int| 0 <= j < i ==> self.procs@[j].id != pid,
            decreases len - i,
        {
            if self.procs[i].id == pid {
                proof {
                    assert(contains_pid(self.procs@, pid));
                    assert(self.procs@[pid_index(self.procs@, pid)].id == pid);
                    assert(self.procs@[i as int] == record_of(self.procs@, pid));
                }
                return Some(i);
            }
            i = i + 1;
        }
        None
    }

    /// The record with this PID, if one is present.
    pub fn get_pid(&self, pid: u32) -> (r: Option<&Process>)
        requires
            self.wf(),
        ensures
            (r is Some) == contains_pid(self.procs@, pid),
            r matches Some(p) ==> *p == record_of(self.procs@, pid),
    {
        match self.index_of_pid(pid) {
            Some(i) => Some(&self.procs[i]),
            None => None,
        }
    }

    /// Inserts a record.  A record with the same `(pid, ppid)` key is
    /// updated in place: its cgroup and parent link are overwritten, and
    /// when the name changed the old name and cmdline move to the
    /// `forked_*` fields and the verdict resets.  A record with the same
    /// PID under another parent is replaced outright.  Returns the index
    /// of the touched record.
    pub fn insert(&mut self, process: Process) -> (r: usize)
        requires
            old(self).wf(),
            process.parent matches Some(p) ==> contains_pid(old(self).procs@, p),
        ensures
            final(self).wf(),
            final(self).drain@ == old(self).drain@,
            r < final(self).procs@.len(),
            inserted(old(self).procs@, final(self).procs@, process, r as int),
    {
        let ghost old_procs = self.procs@;
        let pid = process.id;
        match self.index_of_pid(pid) {
            Some(i) => {
                let rec = self.procs.remove(i);
                proof {
                    old_procs.remove_ensures(i as int);
                }
                let ghost mid = self.procs@;
                let updated = if rec.parent_id == process.parent_id {
                    if !str_eq(rec.name.as_str(), process.name.as_str()) {
                        Process {
                            id: rec.id,
                            parent_id: rec.parent_id,
                            name: process.name,
                            cgroup: process.cgroup,
                            cmdline: process.cmdline,
                            forked_cmdline: rec.cmdline,
                            forked_name: rec.name,
                            parent: process.parent,
                            assigned_priority: OwnedPriority::NotAssignable,
                            pipewire_ancestor: rec.pipewire_ancestor,
                        }
                    } else {
                        Process {
                            id: rec.id,
                            parent_id: rec.parent_id,
                            name: rec.name,
                            cgroup: process.cgroup,
                            cmdline: rec.cmdline,
                            forked_cmdline: rec.forked_cmdline,
                            forked_name: rec.forked_name,
                            parent: process.parent,
                            assigned_priority: rec.assigned_priority,
                            pipewire_ancestor: rec.pipewire_ancestor,
                        }
                    }
                } else {
                    process
                };
                let ghost ug = updated;
                self.procs.insert(i, updated);
                proof {
                    mid.insert_ensures(i as int, ug);
                    assert(self.procs@.len() == old_procs.len());
                    assert forall|j: int| 0 <= j < old_procs.len() && j != i implies self.procs@[j]
                        == old_procs[j] by {
                        if j < i {
                            assert(self.procs@[j] == mid[j]);
                        } else {
                            assert(self.procs@[(j - 1) + 1] == mid[j - 1]);
                            assert(mid[j - 1] == old_procs[(j - 1) + 1]);
                        }
                    }
                    assert(self.procs@[i as int] == ug);
                    assert(pids_unique(self.procs@));
                    assert forall|k: int|
                        0 <= k < self.procs@.len() implies (#[trigger] self.procs@[k].parent
                        matches Some(p) ==> contains_pid(self.procs@, p)) by {
                        match self.procs@[k].parent {
                            Some(p) => {
                                if k == i {
                                    assert(contains_pid(old_procs, p));
                                } else {
                                    assert(self.procs@[k] == old_procs[k]);
                                    assert(contains_pid(old_procs, p));
                                }
                                let w = choose|m: int|
                                    0 <= m < old_procs.len() && old_procs[m].id == p;
                                assert(self.procs@[if w == i {
                                    i as int
                                } else {
                                    w
                                }].id == p);
                            },
                            None => {},
                        }
                    }
                    assert(links_valid(self.procs@));
                }
                i
            },
            None => {
                self.procs.push(process);
                proof {
                    assert(self.procs@ == old_procs.push(process));
                    assert(pids_unique(self.procs@));
                    assert forall|k: int|
                        0 <= k < self.procs@.len() implies (#[trigger] self.procs@[k].parent
                        matches Some(p) ==> contains_pid(self.procs@, p)) by {
                        match self.procs@[k].parent {
                            Some(p) => {
                                if k < old_procs.len() {
                                    assert(self.procs@[k] == old_procs[k]);
                                }
                                assert(contains_pid(old_procs, p));
                                let w = choose|m: int|
                                    0 <= m < old_procs.len() && old_procs[m].id == p;
                                assert(self.procs@[w].id == p);
                            },
                            None => {},
                        }
                    }
                    assert(links_valid(self.procs@));
                }
                self.procs.len() - 1
            },
        }
    }
}

/// How `insert` changes the records: an update in place at `i` for a
/// known `(pid, ppid)` key, a replacement at `i` for a known PID under a
/// new parent, or an appended record.
pub open spec fn inserted(
    old_s: Seq<Process>,
    new_s: Seq<Process>,
    process: Process,
    i: int,
) -> bool {
    if contains_pid(old_s, process.id) {
        &&& new_s.len() == old_s.len()
        &&& 0 <= i < old_s.len()
        &&& old_s[i].id == process.id
        &&& (forall|j: int| 0 <= j < old_s.len() && j != i ==> new_s[j] == old_s[j])
        &&& if old_s[i].parent_id == process.parent_id {
            updated_in_place(old_s[i], new_s[i], process)
        } else {
            new_s[i] == process
        }
    } else {
        &&& new_s == old_s.push(process)
        &&& i == old_s.len()
    }
}

/// How an update in place rewrites one record.
pub open spec fn updated_in_place(old_r: Process, new_r: Process, process: Process) -> bool {
    &&& new_r.id == old_r.id
    &&& new_r.parent_id == old_r.parent_id
    &&& new_r.cgroup == process.cgroup
    &&& new_r.parent == process.parent
    &&& new_r.pipewire_ancestor == old_r.pipewire_ancestor
    &&& if old_r.name@ != process.name@ {
        &&& new_r.name == process.name
        &&& new_r.cmdline == process.cmdline
        &&& new_r.forked_name == old_r.name
        &&& new_r.forked_cmdline == old_r.cmdline
        &&& new_r.assigned_priority is NotAssignable
    } else {
        &&& new_r.name == old_r.name
        &&& new_r.cmdline == old_r.cmdline
        &&& new_r.forked_name == old_r.forked_name
        &&& new_r.forked_cmdline == old_r.forked_cmdline
        &&& new_r.assigned_priority == old_r.assigned_priority
    }
}

/// Whether `v` holds a record with this PID.
pub(crate) fn find_pid(v: &Vec<Process>, pid: u32) -> (r: bool)
    ensures
        r == contains_pid(v@, pid),
{
    let len = v.len();
    let mut i: usize = 0;
    while i < len
        invariant
            i <= len,
            forall|j: int| 0 <= j < i ==> v@[j].id != pid,
        decreases len - i,
    {
        if v[i].id == pid {
            return true;
        }
        i = i + 1;
    }
    false
}

/// Whether `v` holds `x`.
pub(crate) fn find_u32(v: &Vec<u32>, x: u32) -> (r: bool)
    ensures
        r == contains_u32(v@, x),
{
    let len = v.len();
    let mut i: usize = 0;
    while i < len
        invariant
            i <= len,
            forall|j: int| 0 <= j < i ==> v@[j] != x,
        decreases len - i,
    {
        if v[i] == x {
            return true;
        }
        i = i + 1;
    }
    false
}

/// Removes `x` from the list, which holds each value at most once.
pub(crate) fn remove_u32(v: &mut Vec<u32>, x: u32)
    requires
        u32s_unique(old(v)@),
    ensures
        u32s_unique(final(v)@),
        forall|y: u32|
            #[trigger] contains_u32(final(v)@, y) <==> contains_u32(old(v)@, y) && y != x,
{
    let ghost old_v = v@;
    let len = v.len();
    let mut i: usize = 0;
    while i < len
        invariant
            i <= len,
            v@ == old_v,
            forall|j: int| 0 <= j < i ==> old_v[j] != x,
        decreases len - i,
    {
        if v[i] == x {
            let _ = v.remove(i);
            proof {
                old_v.remove_ensures(i as int);
                assert forall|y: u32|
                    #[trigger] contains_u32(v@, y) <==> contains_u32(old_v, y) && y != x by {
                    if contains_u32(v@, y) {
                        let k = choose|k: int| 0 <= k < v@.len() && v@[k] == y;
                        if k < i {
                            assert(old_v[k] == y);
                        } else {
                            assert(v@[k] == old_v[k + 1]);
                        }
                        assert(contains_u32(old_v, y));
                        assert(y != x);
                    }
                    if contains_u32(old_v, y) && y != x {
                        let k = choose|k: int| 0 <= k < old_v.len() && old_v[k] == y;
                        if k < i {
                            assert(v@[k] == y);
                        } else {
                            assert(k != i);
                            assert(v@[k - 1] == old_v[k]);
                        }
                        assert(contains_u32(v@, y));
                    }
                }
                assert forall|a: int, b: int| 0 <= a < b < v@.len() implies v@[a] != v@[b] by {
                    let a0: int = if a < i { a } else { a + 1 };
                    let b0: int = if b < i { b } else { b + 1 };
                    assert(v@[a] == old_v[a0]);
                    assert(v@[b] == old_v[b0]);
                }
            }
            return;
        }
        i = i + 1;
    }
    proof {
        assert forall|y: u32|
            #[trigger] contains_u32(v@, y) implies contains_u32(old_v, y) && y != x by {
            let k = choose|k: int| 0 <= k < v@.len() && v@[k] == y;
            assert(old_v[k] == y);
        }
    }
}

/// What becomes of a parent link when the sweep runs: it survives only if
/// its target is present and not marked for removal.
pub open spec fn surviving_link(link: Option<u32>, s: Seq<Process>, drain: Seq<u32>) -> Option<
    u32,
> {
    match link {
        Some(q) => if contains_pid(s, q) && !contains_u32(drain, q) {
            Some(q)
        } else {
            None
        },
        None => None,
    }
}

/// A parent link restricted to targets present in `s`.
pub open spec fn link_within(link: Option<u32>, s: Seq<Process>) -> Option<u32> {
    match link {
        Some(q) => if contains_pid(s, q) {
            Some(q)
        } else {
            None
        },
        None => None,
    }
}

impl ProcessMap {
    /// Marks every current PID for removal; the refresh that follows
    /// unmarks what it still sees.
    pub fn drain_filter_prepare(&mut self)
        requires
            old(self).wf(),
        ensures
            final(self).wf(),
            final(self).procs@ == old(self).procs@,
            forall|y: u32|
                #[trigger] contains_u32(final(self).drain@, y) <==> contains_pid(
                    old(self).procs@,
                    y,
                ),
    {
        self.drain.clear();
        let ghost ps = self.procs@;
        let len = self.procs.len();
        let mut i: usize = 0;
        while i < len
            invariant
                i <= len,
                self.procs@ == ps,
                len == ps.len(),
                self.drain@.len() == i,
                forall|k: int| 0 <= k < i ==> self.drain@[k] == ps[k].id,
            decreases len - i,
        {
            let pid = self.procs[i].id;
            self.drain.push(pid);
            i = i + 1;
        }
        proof {
            assert forall|y: u32|
                #[trigger] contains_u32(self.drain@, y) <==> contains_pid(self.procs@, y) by {
                if contains_u32(self.drain@, y) {
                    let k = choose|k: int| 0 <= k < self.drain@.len() && self.drain@[k] == y;
                    assert(self.procs@[k].id == y);
                }
                if contains_pid(self.procs@, y) {
                    let k = choose|k: int| 0 <= k < self.procs@.len() && self.procs@[k].id == y;
                    assert(self.drain@[k] == y);
                }
            }
            assert forall|a: int, b: int|
                0 <= a < b < self.drain@.len() implies self.drain@[a] != self.drain@[b] by {
                assert(self.drain@[a] == self.procs@[a].id);
                assert(self.drain@[b] == self.procs@[b].id);
            }
        }
    }

    /// The indices of the record's ancestors, nearest first, following
    /// parent links for at most as many steps as there are records.
    pub fn ancestors_of(&self, idx: usize) -> (r: Vec<usize>)
        requires
            self.wf(),
            idx < self.procs@.len(),
        ensures
            ({
                let chain = chain_pids(
                    self.procs@,
                    self.procs@[idx as int].parent,
                    self.procs@.len() as nat,
                );
                &&& r@.len() == chain.len()
                &&& forall|k: int|
                    0 <= k < chain.len() ==> #[trigger] r@[k] < self.procs@.len()
                        && self.procs@[r@[k] as int].id == chain[k] && self.procs@[r@[k] as int]
                        == record_of(self.procs@, chain[k])
            }),
    {
        let ghost s = self.procs@;
        let ghost chain = chain_pids(s, s[idx as int].parent, s.len() as nat);
        let mut out: Vec<usize> = Vec::new();
        let mut link = self.procs[idx].parent;
        let mut fuel = self.procs.len();
        while fuel > 0 && link.is_some()
            invariant
                fuel == s.len() - out@.len(),
                out@.len() <= chain.len(),
                link matches Some(q) ==> contains_pid(s, q),
                chain_pids(s, link, fuel as nat) == chain.skip(out@.len() as int),
                forall|k: int|
                    0 <= k < out@.len() ==> #[trigger] out@[k] < s.len() && s[out@[k] as int].id
                        == chain[k] && s[out@[k] as int] == record_of(s, chain[k]),
            decreases fuel,
        {
            let p = link.unwrap();
            let ghost n = out@.len() as int;
            proof {
                assert(chain_pids(s, link, fuel as nat) == chain.skip(n));
            }
            let j = match self.index_of_pid(p) {
                Some(j) => j,
                None => {
                    proof {
                        assert(chain_pids(s, link, fuel as nat) =~= Seq::<u32>::empty());
                        assert(false);
                    }
                    0
                },
            };
            proof {
                assert(contains_pid(s, p));
                assert(chain.skip(n) =~= seq![p] + chain_pids(
                    s,
                    record_of(s, p).parent,
                    (fuel - 1) as nat,
                ));
                assert(chain.skip(n).len() >= 1);
                assert(chain[n] == chain.skip(n)[0]);
                assert(chain[n] == p);
                assert(s[j as int] == record_of(s, p));
                assert(chain.skip(n + 1) =~= chain.skip(n).skip(1));
                assert(chain.skip(n).skip(1) =~= chain_pids(
                    s,
                    record_of(s, p).parent,
                    (fuel - 1) as nat,
                ));
            }
            out.push(j);
            link = self.procs[j].parent;
            fuel = fuel - 1;
        }
        proof {
            if out@.len() < chain.len() {
                assert(chain.skip(out@.len() as int).len() > 0);
                assert(chain_pids(s, link, fuel as nat).len() > 0);
                assert(fuel > 0 && link is Some);
                assert(false);
            }
            assert(out@.len() == chain.len());
        }
        out
    }

    /// Unmarks this PID and every ancestor of its record, so that the
    /// sweep keeps the whole chain walkable.
    pub fn retain_process_tree(&mut self, pid: u32)
        requires
            old(self).wf(),
        ensures
            final(self).wf(),
            final(self).procs@ == old(self).procs@,
            forall|y: u32|
                #[trigger] contains_u32(final(self).drain@, y) <==> (contains_u32(
                    old(self).drain@,
                    y,
                ) && y != pid && !ancestor_pids(old(self).procs@, pid).contains(y)),
    {
        let ghost s = self.procs@;
        let ghost old_drain = self.drain@;
        let ghost chain = ancestor_pids(s, pid);
        remove_u32(&mut self.drain, pid);
        let idx = match self.index_of_pid(pid) {
            Some(i) => i,
            None => {
                proof {
                    assert(chain =~= Seq::<u32>::empty());
                    assert forall|y: u32|
                        #[trigger] contains_u32(self.drain@, y) <==> (contains_u32(old_drain, y)
                            && y != pid && !chain.contains(y)) by {}
                }
                return ;
            },
        };
        proof {
            assert(s[idx as int] == record_of(s, pid));
            assert(chain == chain_pids(s, s[idx as int].parent, s.len() as nat));
        }
        let anc = self.ancestors_of(idx);
        let len = anc.len();
        let mut k: usize = 0;
        while k < len
            invariant
                k <= len,
                len == chain.len(),
                self.procs@ == s,
                u32s_unique(self.drain@),
                anc@.len() == chain.len(),
                forall|m: int|
                    0 <= m < chain.len() ==> #[trigger] anc@[m] < s.len() && s[anc@[m] as int].id
                        == chain[m],
                forall|y: u32|
                    #[trigger] contains_u32(self.drain@, y) <==> (contains_u32(old_drain, y) && y
                        != pid && !chain.take(k as int).contains(y)),
            decreases len - k,
        {
            let j = anc[k];
            let apid = self.procs[j].id;
            let ghost before = self.drain@;
            remove_u32(&mut self.drain, apid);
            proof {
                assert(apid == chain[k as int]);
                assert(chain.take(k + 1 as int) =~= chain.take(k as int).push(apid));
                assert forall|y: u32|
                    #[trigger] contains_u32(self.drain@, y) <==> (contains_u32(old_drain, y) && y
                        != pid && !chain.take(k + 1 as int).contains(y)) by {
                    assert(contains_u32(self.drain@, y) == (contains_u32(before, y) && y != apid));
                    if chain.take(k + 1 as int).contains(y) {
                        let m = choose|m: int|
                            0 <= m < chain.take(k + 1 as int).len() && (#[trigger] chain.take(
                                k + 1 as int,
                            )[m]) == y;
                        if m < k {
                            assert(chain.take(k as int)[m] == y);
                        } else {
                            assert(y == apid);
                        }
                    }
                    if chain.take(k as int).contains(y) {
                        let m = choose|m: int|
                            0 <= m < chain.take(k as int).len() && (#[trigger] chain.take(
                                k as int,
                            )[m]) == y;
                        assert(chain.take(k + 1 as int)[m] == y);
                    }
                    if y == apid {
                        assert(chain.take(k + 1 as int)[k as int] == y);
                    }
                }
            }
            k = k + 1;
        }
        proof {
            assert(chain.take(chain.len() as int) =~= chain);
        }
    }
}

impl ProcessMap {
    /// Removes every record whose PID is still marked, clears parent
    /// links whose target goes away, and empties the drain set.
    pub fn drain_filter(&mut self)
        requires
            old(self).wf(),
        ensures
            final(self).wf(),
            final(self).drain@.len() == 0,
            forall|y: u32|
                #[trigger] contains_pid(final(self).procs@, y) <==> (contains_pid(
                    old(self).procs@,
                    y,
                ) && !contains_u32(old(self).drain@, y)),
            forall|y: u32|
                #[trigger] contains_pid(final(self).procs@, y) ==> same_but_parent(
                    record_of(old(self).procs@, y),
                    record_of(final(self).procs@, y),
                    surviving_link(
                        record_of(old(self).procs@, y).parent,
                        old(self).procs@,
                        old(self).drain@,
                    ),
                ),
    {
        let ghost old_procs = self.procs@;
        let ghost dr = self.drain@;
        let len = self.procs.len();
        let mut kept: Vec<Process> = Vec::new();
        let mut i: usize = 0;
        while i < len
            invariant
                i <= len,
                len == old_procs.len(),
                self.procs@ == old_procs,
                self.drain@ == dr,
                pids_unique(kept@),
                forall|k: int|
                    0 <= k < kept@.len() ==> exists|j: int|
                        0 <= j < i && #[trigger] kept@[k] == old_procs[j],
                forall|y: u32|
                    #[trigger] contains_pid(kept@, y) <==> ((exists|j: int|
                        0 <= j < i && old_procs[j].id == y) && !contains_u32(dr, y)),
            decreases len - i,
        {
            let rec = self.procs[i].clone();
            let marked = find_u32(&self.drain, rec.id);
            if !marked {
                let ghost kept0 = kept@;
                kept.push(rec);
                proof {
                    assert(kept@ == kept0.push(old_procs[i as int]));
                    assert forall|a: int, b: int| 0 <= a < b < kept@.len() implies kept@[a].id
                        != kept@[b].id by {
                        if b == kept0.len() {
                            let j = choose|j: int|
                                0 <= j < i && #[trigger] kept0[a] == old_procs[j];
                            assert(old_procs[j].id != old_procs[i as int].id);
                        }
                    }
                    assert forall|y: u32|
                        #[trigger] contains_pid(kept@, y) <==> ((exists|j: int|
                            0 <= j <= i && old_procs[j].id == y) && !contains_u32(dr, y)) by {
                        if contains_pid(kept@, y) {
                            let k = choose|k: int| 0 <= k < kept@.len() && kept@[k].id == y;
                            if k < kept0.len() {
                                assert(contains_pid(kept0, y));
                            } else {
                                assert(old_procs[i as int].id == y);
                            }
                        }
                        if (exists|j: int| 0 <= j <= i && old_procs[j].id == y) && !contains_u32(
                            dr,
                            y,
                        ) {
                            let j = choose|j: int| 0 <= j <= i && old_procs[j].id == y;
                            if j < i {
                                assert(contains_pid(kept0, y));
                                let k = choose|k: int|
                                    0 <= k < kept0.len() && kept0[k].id == y;
                                assert(kept@[k].id == y);
                            } else {
                                assert(kept@[kept0.len() as int].id == y);
                            }
                        }
                    }
                }
            } else {
                proof {
                    assert forall|y: u32|
                        #[trigger] contains_pid(kept@, y) <==> ((exists|j: int|
                            0 <= j <= i && old_procs[j].id == y) && !contains_u32(dr, y)) by {
                        if (exists|j: int| 0 <= j <= i && old_procs[j].id == y) && !contains_u32(
                            dr,
                            y,
                        ) {
                            let j = choose|j: int| 0 <= j <= i && old_procs[j].id == y;
                            if j == i {
                                assert(contains_u32(dr, y));
                            }
                        }
                    }
                }
            }
            i = i + 1;
        }
        let ghost keptv = kept@;
        let klen = kept.len();
        let mut out: Vec<Process> = Vec::new();
        let mut k: usize = 0;
        while k < klen
            invariant
                k <= klen,
                klen == keptv.len(),
                kept@ == keptv,
                out@.len() == k,
                forall|m: int|
                    0 <= m < k ==> same_but_parent(
                        keptv[m],
                        #[trigger] out@[m],
                        link_within(keptv[m].parent, keptv),
                    ),
            decreases klen - k,
        {
            let rec = kept[k].clone();
            let link = match rec.parent {
                Some(q) => if find_pid(&kept, q) {
                    Some(q)
                } else {
                    None
                },
                None => None,
            };
            out.push(Process {
                id: rec.id,
                parent_id: rec.parent_id,
                name: rec.name,
                cgroup: rec.cgroup,
                cmdline: rec.cmdline,
                forked_cmdline: rec.forked_cmdline,
                forked_name: rec.forked_name,
                parent: link,
                assigned_priority: rec.assigned_priority,
                pipewire_ancestor: rec.pipewire_ancestor,
            });
            k = k + 1;
        }
        self.procs = out;
        self.drain = Vec::new();
        proof {
            assert forall|y: u32|
                #[trigger] contains_pid(self.procs@, y) <==> contains_pid(keptv, y) by {
                if contains_pid(self.procs@, y) {
                    let m = choose|m: int|
                        0 <= m < self.procs@.len() && self.procs@[m].id == y;
                    assert(keptv[m].id == y);
                }
                if contains_pid(keptv, y) {
                    let m = choose|m: int| 0 <= m < keptv.len() && keptv[m].id == y;
                    assert(self.procs@[m].id == y);
                }
            }
            assert forall|a: int, b: int|
                0 <= a < b < self.procs@.len() implies self.procs@[a].id != self.procs@[b].id by {
                assert(self.procs@[a].id == keptv[a].id);
                assert(self.procs@[b].id == keptv[b].id);
            }
            assert forall|m: int|
                0 <= m < self.procs@.len() implies (#[trigger] self.procs@[m].parent
                matches Some(p) ==> contains_pid(self.procs@, p)) by {
                match self.procs@[m].parent {
                    Some(p) => {
                        assert(self.procs@[m].parent == link_within(keptv[m].parent, keptv));
                        assert(contains_pid(keptv, p));
                    },
                    None => {},
                }
            }
            assert(links_valid(self.procs@));
            assert forall|y: u32|
                #[trigger] contains_pid(self.procs@, y) implies same_but_parent(
                record_of(old_procs, y),
                record_of(self.procs@, y),
                surviving_link(record_of(old_procs, y).parent, old_procs, dr),
            ) by {
                let m = pid_index(self.procs@, y);
                assert(self.procs@[m].id == y);
                assert(keptv[m].id == y);
                assert(contains_pid(keptv, y));
                assert(pid_index(keptv, y) == m) by {
                    let m2 = pid_index(keptv, y);
                    assert(keptv[m2].id == y);
                    if m2 != m {
                        assert(keptv[m2].id != keptv[m].id);
                    }
                }
                let j = choose|j: int|
                    0 <= j < old_procs.len() && #[trigger] keptv[m] == old_procs[j];
                assert(old_procs[j].id == y);
                assert(record_of(old_procs, y) == old_procs[j]) by {
                    let j2 = pid_index(old_procs, y);
                    assert(old_procs[j2].id == y);
                    if j2 != j {
                        assert(old_procs[j2].id != old_procs[j].id);
                    }
                }
                assert(same_but_parent(keptv[m], self.procs@[m], link_within(keptv[m].parent, keptv)));
                assert(link_within(keptv[m].parent, keptv) == surviving_link(
                    record_of(old_procs, y).parent,
                    old_procs,
                    dr,
                )) by {
                    match keptv[m].parent {
                        Some(q) => {
                            assert(contains_pid(keptv, q) == (contains_pid(old_procs, q)
                                && !contains_u32(dr, q)));
                        },
                        None => {},
                    }
                }
            }
        }
    }
}

/// Whether `y` sits on the ancestor chain of the record with PID `o`,
/// reached by following parent links for some number of steps.
pub open spec fn reaches(s: Seq<Process>, o: u32, y: u32) -> bool {
    contains_pid(s, o) && exists|fuel: nat|
        chain_pids(s, record_of(s, o).parent, fuel).contains(y)
}

/// Every PID on an ancestor chain names a record of the map.
pub proof fn lemma_chain_elements_contained(s: Seq<Process>, link: Option<u32>, fuel: nat)
    ensures
        forall|k: int|
            0 <= k < chain_pids(s, link, fuel).len() ==> contains_pid(
                s,
                #[trigger] chain_pids(s, link, fuel)[k],
            ),
    decreases fuel,
{
    if fuel > 0 {
        match link {
            Some(p) => {
                if contains_pid(s, p) {
                    lemma_chain_elements_contained(s, record_of(s, p).parent, (fuel - 1) as nat);
                    assert forall|k: int|
                        0 <= k < chain_pids(s, link, fuel).len() implies contains_pid(
                        s,
                        #[trigger] chain_pids(s, link, fuel)[k],
                    ) by {
                        if k > 0 {
                            assert(chain_pids(s, link, fuel)[k] == chain_pids(
                                s,
                                record_of(s, p).parent,
                                (fuel - 1) as nat,
                            )[k - 1]);
                        }
                    }
                }
            },
            None => {},
        }
    }
}

/// Each chain entry's record links to the next entry, while the chain
/// continues.
pub proof fn lemma_chain_steps(s: Seq<Process>, link: Option<u32>, fuel: nat)
    ensures
        forall|j: int|
            0 <= j && j + 1 < chain_pids(s, link, fuel).len() ==> record_of(
                s,
                #[trigger] chain_pids(s, link, fuel)[j],
            ).parent == Some(chain_pids(s, link, fuel)[j + 1]),
    decreases fuel,
{
    if fuel > 0 {
        match link {
            Some(p) => {
                if contains_pid(s, p) {
                    let tail = chain_pids(s, record_of(s, p).parent, (fuel - 1) as nat);
                    lemma_chain_steps(s, record_of(s, p).parent, (fuel - 1) as nat);
                    assert(chain_pids(s, link, fuel) == seq![p] + tail);
                    assert(seq![p].len() == 1);
                    assert(forall|j: int|
                        0 <= j < tail.len() ==> #[trigger] (seq![p] + tail)[j + 1] == tail[j]);
                    assert forall|j: int|
                        0 <= j && j + 1 < chain_pids(s, link, fuel).len() implies record_of(
                        s,
                        #[trigger] chain_pids(s, link, fuel)[j],
                    ).parent == Some(chain_pids(s, link, fuel)[j + 1]) by {
                        if j == 0 {
                            assert(chain_pids(s, link, fuel)[0] == p);
                            assert(chain_pids(s, link, fuel)[1] == tail[0]);
                            assert(tail.len() > 0);
                            assert(record_of(s, p).parent is Some) by {
                                if record_of(s, p).parent is None {
                                    assert(tail.len() == 0);
                                }
                            }
                            assert(tail[0] == record_of(s, p).parent->0) by {
                                match record_of(s, p).parent {
                                    Some(q) => {
                                        if contains_pid(s, q) {
                                        } else {
                                            assert(tail.len() == 0);
                                        }
                                    },
                                    None => {},
                                }
                            }
                        } else {
                            assert((seq![p] + tail).len() == 1 + tail.len());
                            assert((seq![p] + tail)[j] == tail[j - 1]);
                            assert((seq![p] + tail)[j + 1] == tail[j]);
                            assert(chain_pids(s, link, fuel)[j] == tail[j - 1]);
                            assert(chain_pids(s, link, fuel)[j + 1] == tail[j]);
                        }
                    }
                }
            },
            None => {},
        }
    }
}

/// A chain is never longer than its fuel bound.
pub proof fn lemma_chain_len_le_fuel(s: Seq<Process>, link: Option<u32>, fuel: nat)
    ensures
        chain_pids(s, link, fuel).len() <= fuel,
    decreases fuel,
{
    if fuel > 0 {
        match link {
            Some(p) => {
                if contains_pid(s, p) {
                    lemma_chain_len_le_fuel(s, record_of(s, p).parent, (fuel - 1) as nat);
                }
            },
            None => {},
        }
    }
}

/// A chain with less fuel is a prefix of the same chain with more.
pub proof fn lemma_chain_prefix(s: Seq<Process>, link: Option<u32>, f1: nat, f2: nat)
    requires
        f1 <= f2,
    ensures
        ({
            let c1 = chain_pids(s, link, f1);
            let c2 = chain_pids(s, link, f2);
            &&& (if c2.len() >= f1 {
                c1.len() == f1
            } else {
                c1 == c2
            })
            &&& c1.len() <= c2.len()
            &&& forall|j: int| 0 <= j < c1.len() ==> #[trigger] c1[j] == c2[j]
        }),
    decreases f1,
{
    if f1 > 0 {
        match link {
            Some(p) => {
                if contains_pid(s, p) {
                    lemma_chain_prefix(s, record_of(s, p).parent, (f1 - 1) as nat, (f2
                        - 1) as nat);
                    let t1 = chain_pids(s, record_of(s, p).parent, (f1 - 1) as nat);
                    let t2 = chain_pids(s, record_of(s, p).parent, (f2 - 1) as nat);
                    assert forall|j: int|
                        0 <= j < chain_pids(s, link, f1).len() implies #[trigger] chain_pids(
                        s,
                        link,
                        f1,
                    )[j] == chain_pids(s, link, f2)[j] by {
                        if j > 0 {
                            assert(chain_pids(s, link, f1)[j] == t1[j - 1]);
                            assert(chain_pids(s, link, f2)[j] == t2[j - 1]);
                        }
                    }
                    if chain_pids(s, link, f2).len() >= f1 {
                    } else {
                        assert(chain_pids(s, link, f1) =~= chain_pids(s, link, f2));
                    }
                }
            },
            None => {},
        }
    }
}

/// A chain survives into a second map when its records stay present with
/// the parent links that the walk follows.
pub proof fn lemma_chain_transfer(s1: Seq<Process>, s2: Seq<Process>, link: Option<u32>, fuel: nat)
    requires
        forall|q: u32| #[trigger] contains_pid(s2, q) ==> contains_pid(s1, q),
        forall|j: int|
            0 <= j < chain_pids(s1, link, fuel).len() ==> contains_pid(
                s2,
                #[trigger] chain_pids(s1, link, fuel)[j],
            ),
        forall|j: int|
            0 <= j < chain_pids(s1, link, fuel).len() && j + 1 < fuel ==> record_of(
                s2,
                #[trigger] chain_pids(s1, link, fuel)[j],
            ).parent == record_of(s1, chain_pids(s1, link, fuel)[j]).parent,
        pids_unique(s1),
        pids_unique(s2),
    ensures
        chain_pids(s2, link, fuel) == chain_pids(s1, link, fuel),
    decreases fuel,
{
    if fuel > 0 {
        match link {
            Some(p) => {
                if contains_pid(s1, p) {
                    let c1 = chain_pids(s1, link, fuel);
                    assert(c1[0] == p);
                    assert(contains_pid(s2, p));
                    assert(record_of(s2, p).id == p && record_of(s1, p).id == p) by {
                        assert(s2[pid_index(s2, p)].id == p);
                        assert(s1[pid_index(s1, p)].id == p);
                    }
                    if fuel >= 2 && c1.len() >= 1 {
                    }
                    let par1 = record_of(s1, p).parent;
                    let par2 = record_of(s2, p).parent;
                    let t1 = chain_pids(s1, par1, (fuel - 1) as nat);
                    assert(forall|j: int| 0 <= j < t1.len() ==> #[trigger] t1[j] == c1[j + 1]);
                    if fuel == 1 {
                        assert(chain_pids(s2, record_of(s2, p).parent, 0) =~= Seq::<u32>::empty());
                        assert(chain_pids(s1, record_of(s1, p).parent, 0) =~= Seq::<u32>::empty());
                        assert(chain_pids(s2, link, fuel) =~= seq![p]);
                        assert(chain_pids(s1, link, fuel) =~= seq![p]);
                        assert(chain_pids(s2, link, fuel) == chain_pids(s1, link, fuel));
                    } else {
                        assert(par2 == par1) by {
                            assert(0 + 1 < fuel);
                            assert(c1.len() >= 1);
                        }
                        lemma_chain_transfer(s1, s2, par1, (fuel - 1) as nat);
                        assert(chain_pids(s2, link, fuel) =~= chain_pids(s1, link, fuel));
                    }
                } else {
                    assert(!contains_pid(s2, p)) by {
                        if contains_pid(s2, p) {
                            assert(contains_pid(s1, p));
                        }
                    }
                }
            },
            None => {},
        }
    }
}

} // verus!
