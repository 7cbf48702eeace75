//! The properties the library maintains, stated on their own so a reader
//! can see them without mining the operation contracts.

use vstd::prelude::*;

use crate::process::{contains_pid, contains_u32, record_of, Process, ProcessMap};
use crate::profile::{IoPolicy, Profile};
use crate::rules::Assignments;
use crate::service::{
    fg_tail, first_pw_hit, is_effective_profile, list_pw_hit, pw_add_touches,
    pw_remove_touches, same_but_pwa, verdict_of, Service,
};

verus! {

/// Every record that carries a parent link points at a record that is
/// present in the map; removal of the parent clears the link rather than
/// leaving it dangling.
pub proof fn lemma_parent_link_resolves(m: ProcessMap, i: int, p: u32)
    requires
        m.wf(),
        0 <= i < m.procs@.len(),
        m.procs@[i].parent == Some(p),
    ensures
        contains_pid(m.procs@, p),
{
}

/// Every PID that a focus change collects beyond the focused one belongs
/// to a record whose verdict was assignable at that moment.  The focused
/// PID itself is inserted without such a record.
pub proof fn lemma_focus_set_assignable(s_all: Seq<Process>, s: Seq<Process>, pid: u32, y: u32)
    requires
        fg_tail(s_all, s, pid).contains(y),
    ensures
        exists|j: int|
            0 <= j < s.len() && (#[trigger] s[j]).id == y && s[j].assigned_priority is Assignable,
    decreases s.len(),
{
    if s.len() > 0 {
        let head_kept = s[0].assigned_priority is Assignable && crate::service::in_focus_tree(
            s_all,
            s[0],
            pid,
        );
        if head_kept && y == s[0].id {
            assert(s[0].id == y && s[0].assigned_priority is Assignable);
        } else {
            assert(fg_tail(s_all, s.skip(1), pid).contains(y)) by {
                let m = choose|m: int|
                    0 <= m < fg_tail(s_all, s, pid).len() && fg_tail(s_all, s, pid)[m] == y;
                if head_kept {
                    assert(fg_tail(s_all, s, pid)[0] == s[0].id);
                    assert(m >= 1);
                    assert(fg_tail(s_all, s.skip(1), pid)[m - 1] == y);
                } else {
                    assert(fg_tail(s_all, s.skip(1), pid)[m] == y);
                }
            }
            lemma_focus_set_assignable(s_all, s.skip(1), pid, y);
            let j = choose|j: int|
                0 <= j < s.skip(1).len() && (#[trigger] s.skip(1)[j]).id == y && s.skip(
                    1,
                )[j].assigned_priority is Assignable;
            assert(s[j + 1] == s.skip(1)[j]);
        }
    }
}

/// The rule engine is deterministic: the same record under the same map
/// and the same compiled rules receives the same verdict.  The verdict is
/// a mathematical function of those three values, so nothing else can
/// influence it.
pub proof fn lemma_rule_engine_deterministic(
    s1: Seq<Process>,
    s2: Seq<Process>,
    r1: Process,
    r2: Process,
    a1: Assignments,
    a2: Assignments,
)
    requires
        s1 == s2,
        r1 == r2,
        a1 == a2,
    ensures
        verdict_of(s1, r1, a1) == verdict_of(s2, r2, a2),
{
}

/// A record whose cmdline is empty is a kernel thread and is never
/// assignable.
pub proof fn lemma_kernel_thread_not_assignable(s: Seq<Process>, rec: Process, a: Assignments)
    requires
        rec.cmdline@.len() == 0,
    ensures
        verdict_of(s, rec, a) is NotAssignable,
{
}

/// Two profiles that agree on every observable setting.
pub open spec fn profile_eqv(p: Profile, q: Profile) -> bool {
    &&& p.name@ == q.name@
    &&& p.nice == q.nice
    &&& (match (p.io, q.io) {
        (IoPolicy::Idle, IoPolicy::Idle) => true,
        (IoPolicy::Standard, IoPolicy::Standard) => true,
        (IoPolicy::BestEffort(l1), IoPolicy::BestEffort(l2)) => l1.value() == l2.value(),
        (IoPolicy::Realtime(l1), IoPolicy::Realtime(l2)) => l1.value() == l2.value(),
        _ => false,
    })
    &&& p.sched_policy == q.sched_policy
    &&& p.sched_priority.value() == q.sched_priority.value()
}

/// Applying a verdict never changes library state, and two applications
/// under one state select observably equal profiles, so applying the same
/// profile twice is a no-op at the observable level.
pub proof fn lemma_apply_idempotent(
    svc: Service,
    rec: Process,
    r1: Option<Profile>,
    r2: Option<Profile>,
)
    requires
        is_effective_profile(svc, rec, r1),
        is_effective_profile(svc, rec, r2),
    ensures
        (r1 is Some) == (r2 is Some),
        r1 matches Some(p1) ==> (r2 matches Some(p2) ==> profile_eqv(p1, p2)),
{
}

/// A focus change reads the process records and does not write them, so
/// issuing the same focus change again collects the same foreground set.
pub proof fn lemma_focus_change_idempotent(svc1: Service, svc2: Service, pid: u32)
    requires
        svc1.process_map.procs@ == svc2.process_map.procs@,
    ensures
        seq![pid] + fg_tail(svc1.process_map.procs@, svc1.process_map.procs@, pid) == seq![pid]
            + fg_tail(svc2.process_map.procs@, svc2.process_map.procs@, pid),
{
}

/// An audio-session add followed by its removal restores every record
/// whose session ancestor was clear before, and never touches a cached
/// verdict; a record that already pointed at another session keeps only
/// its verdict.  The session operations only ever store ancestors that
/// are current members of the session set, so a fresh session PID is
/// nobody's recorded ancestor.
pub proof fn lemma_pipewire_round_trip(
    s0: Seq<Process>,
    s1: Seq<Process>,
    s2: Seq<Process>,
    pid: u32,
    pw0: Seq<u32>,
)
    requires
        s1.len() == s0.len(),
        s2.len() == s1.len(),
        forall|j: int|
            0 <= j < s0.len() ==> if pw_add_touches(s0, s0[j], pid) {
                same_but_pwa(s0[j], #[trigger] s1[j], Some(pid))
            } else {
                s1[j] == s0[j]
            },
        forall|j: int|
            0 <= j < s1.len() ==> if pw_remove_touches(s1[j], pid) {
                same_but_pwa(s1[j], #[trigger] s2[j], None)
            } else {
                s2[j] == s1[j]
            },
        crate::service::session_ancestors_current(s0, pw0),
        !crate::process::contains_u32(pw0, pid),
    ensures
        forall|j: int|
            0 <= j < s0.len() ==> (#[trigger] s2[j]).assigned_priority
                == s0[j].assigned_priority,
        forall|j: int|
            0 <= j < s0.len() && (#[trigger] s0[j]).pipewire_ancestor is None ==> s2[j] == s0[j],
{
    assert forall|j: int|
        0 <= j < s0.len() implies (#[trigger] s0[j]).pipewire_ancestor != Some(pid) by {
        match s0[j].pipewire_ancestor {
            Some(q) => {
                assert(contains_u32(pw0, q));
            },
            None => {},
        }
    }
    assert forall|j: int|
        0 <= j < s0.len() && (#[trigger] s0[j]).pipewire_ancestor is None implies s2[j]
        == s0[j] by {
        if pw_add_touches(s0, s0[j], pid) {
            assert(same_but_pwa(s0[j], s1[j], Some(pid)));
            assert(pw_remove_touches(s1[j], pid));
            assert(same_but_pwa(s1[j], s2[j], None));
        } else {
            if pw_remove_touches(s1[j], pid) {
                assert(same_but_pwa(s1[j], s2[j], None));
            }
        }
    }
}

/// A record renamed by an exec keeps its prior name and cmdline in the
/// `forked` fields and loses its cached verdict.
pub proof fn lemma_rename_preserves_history(old_r: Process, new_r: Process, cand: Process)
    requires
        crate::process::updated_in_place(old_r, new_r, cand),
        old_r.name@ != cand.name@,
    ensures
        new_r.forked_name == old_r.name,
        new_r.forked_cmdline == old_r.cmdline,
        new_r.assigned_priority is NotAssignable,
{
}

/// A session ancestor is found exactly when some record on the ancestor
/// chain names a session PID, as its own PID or as its captured parent.
pub proof fn lemma_session_ancestor_characterized(s: Seq<Process>, chain: Seq<u32>, pw: Seq<u32>)
    ensures
        (first_pw_hit(s, chain, pw) is Some) == exists|k: int|
            0 <= k < chain.len() && (contains_u32(pw, record_of(s, #[trigger] chain[k]).id)
                || contains_u32(pw, record_of(s, chain[k]).parent_id)),
    decreases chain.len(),
{
    if chain.len() > 0 {
        lemma_list_hit_characterized(record_of(s, chain[0]), pw);
        lemma_session_ancestor_characterized(s, chain.skip(1), pw);
        if first_pw_hit(s, chain, pw) is Some {
            if list_pw_hit(record_of(s, chain[0]), pw) is Some {
                assert(contains_u32(pw, record_of(s, chain[0]).id) || contains_u32(
                    pw,
                    record_of(s, chain[0]).parent_id,
                ));
            } else {
                let k = choose|k: int|
                    0 <= k < chain.skip(1).len() && (contains_u32(
                        pw,
                        record_of(s, #[trigger] chain.skip(1)[k]).id,
                    ) || contains_u32(pw, record_of(s, chain.skip(1)[k]).parent_id));
                assert(chain[k + 1] == chain.skip(1)[k]);
            }
        }
        if exists|k: int|
            0 <= k < chain.len() && (contains_u32(pw, record_of(s, #[trigger] chain[k]).id)
                || contains_u32(pw, record_of(s, chain[k]).parent_id)) {
            let k = choose|k: int|
                0 <= k < chain.len() && (contains_u32(pw, record_of(s, #[trigger] chain[k]).id)
                    || contains_u32(pw, record_of(s, chain[k]).parent_id));
            if k == 0 {
                assert(list_pw_hit(record_of(s, chain[0]), pw) is Some);
            } else {
                assert(chain.skip(1)[k - 1] == chain[k]);
                assert(first_pw_hit(s, chain.skip(1), pw) is Some);
            }
        }
    }
}

/// A record hits the session list exactly when the list holds its PID or
/// its captured parent PID.
pub proof fn lemma_list_hit_characterized(rec: Process, pw: Seq<u32>)
    ensures
        (list_pw_hit(rec, pw) is Some) == (contains_u32(pw, rec.id) || contains_u32(
            pw,
            rec.parent_id,
        )),
    decreases pw.len(),
{
    if pw.len() > 0 {
        lemma_list_hit_characterized(rec, pw.skip(1));
        if rec.id == pw[0] || rec.parent_id == pw[0] {
            assert(contains_u32(pw, rec.id) || contains_u32(pw, rec.parent_id));
        } else {
            assert forall|y: u32|
                y != pw[0] implies #[trigger] contains_u32(pw.skip(1), y) == contains_u32(
                pw,
                y,
            ) by {
                if contains_u32(pw.skip(1), y) {
                    let m = choose|m: int| 0 <= m < pw.skip(1).len() && pw.skip(1)[m] == y;
                    assert(pw[m + 1] == y);
                }
                if contains_u32(pw, y) {
                    let m = choose|m: int| 0 <= m < pw.len() && pw[m] == y;
                    assert(m >= 1);
                    assert(pw.skip(1)[m - 1] == y);
                }
            }
        }
    }
}

} // verus!
