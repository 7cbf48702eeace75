//! End-to-end checks of the rule engine, the overlays and the sweep.

use system76_scheduler::cfs::SchedPaths;
use system76_scheduler::config::ForegroundAssignments;
use system76_scheduler::profile::{IoPolicy, IoPriority, Niceness, Profile, SchedPolicy};
use system76_scheduler::rules::Condition;
use system76_scheduler::service::{
    ChildObservation, OwnedPriority, Priority, ProcObservation, Service,
};
use system76_scheduler::wildcard::MatchCondition;

fn paths() -> SchedPaths {
    SchedPaths::new(true, false, false).unwrap()
}

fn profile_with_nice(name: &str, nice: i8) -> Profile {
    let mut p = Profile::new(String::from(name));
    p.nice = Some(Niceness::from(nice));
    p
}

fn spawn(svc: &mut Service, pid: u32, ppid: u32, name: &str, cmdline: &str) {
    svc.assign_new_process(
        pid,
        ppid,
        String::from(name),
        String::from(cmdline),
        true,
        None,
        Some(String::from("grp")),
    );
}

#[test]
fn exec_inherit_exception() {
    let mut svc = Service::new(paths());
    svc.config
        .process_scheduler
        .assignments
        .assign_exception_by_cmdline("/usr/bin/tar");
    let action = svc.assign_new_process(
        200,
        199,
        String::from("tar"),
        String::from("/usr/bin/tar"),
        true,
        None,
        Some(String::from("grp")),
    );
    assert!(action.is_none());
    assert!(matches!(svc.process_assignment(200), Priority::Exception));

    let idx = svc.process_map.index_of_pid(200).unwrap();
    let reset = svc.reset_inherited_exception(idx, -5, Some(-5)).unwrap();
    assert_eq!(reset.0, 200);
    assert_eq!(reset.1.nice.unwrap().get(), 0);
    assert!(matches!(reset.1.io, IoPolicy::BestEffort(l) if l.get() == 7));
    assert!(matches!(reset.1.sched_policy, SchedPolicy::Other));

    // A child that did not inherit is left alone.
    assert!(svc.reset_inherited_exception(idx, 0, Some(-5)).is_none());
}

fn focus_fixture() -> Service {
    let mut svc = Service::new(paths());
    svc.config.process_scheduler.foreground = Some(ForegroundAssignments {
        background: profile_with_nice("background", 5),
        foreground: profile_with_nice("foreground", -5),
    });
    spawn(&mut svc, 10, 1, "a", "/bin/a");
    spawn(&mut svc, 20, 10, "b", "/bin/b");
    spawn(&mut svc, 30, 20, "c", "/bin/c");
    spawn(&mut svc, 40, 1, "d", "/bin/d");
    svc
}

#[test]
fn foreground_descends_apply() {
    let mut svc = focus_fixture();
    let actions = svc.set_foreground_process(10);

    let mut fg = svc.foreground_processes.clone();
    fg.sort_unstable();
    fg.dedup();
    assert_eq!(fg, vec![10, 20, 30]);

    for (pid, profile) in &actions {
        let nice = profile.nice.unwrap().get();
        if *pid == 10 || *pid == 20 || *pid == 30 {
            assert_eq!(nice, -5, "pid {pid} must get the foreground profile");
        } else {
            assert_eq!(nice, 5, "pid {pid} must get the background profile");
        }
    }
    assert_eq!(actions.len(), 4);
}

#[test]
fn pipewire_overrides_foreground() {
    let mut svc = focus_fixture();
    let mut pw = profile_with_nice("pipewire", -4);
    pw.io = IoPolicy::Realtime(IoPriority::from(4));
    svc.config.process_scheduler.pipewire = Some(pw);

    let scenario_two = svc.set_foreground_process(10);
    assert_eq!(scenario_two.len(), 4);

    let actions = svc.set_pipewire_process(30);
    assert_eq!(actions.len(), 1);
    assert_eq!(actions[0].0, 30);
    assert_eq!(actions[0].1.nice.unwrap().get(), -4);
    assert!(matches!(actions[0].1.io, IoPolicy::Realtime(l) if l.get() == 4));
}

#[test]
fn cgroup_condition() {
    let mut svc = Service::new(paths());
    let cond = Condition {
        descends: None,
        cgroup: Some(MatchCondition::new("*/game.slice/*")),
        name: None,
        parent: Vec::new(),
    };
    svc.config.process_scheduler.assignments.assign_by_condition(
        "games",
        cond,
        profile_with_nice("games", -6),
        true,
    );
    svc.assign_new_process(
        4242,
        1,
        String::from("wine"),
        String::from("/usr/bin/wine"),
        true,
        None,
        Some(String::from(
            "0::/user.slice/user-1000.slice/session.slice/game.slice/wine-4242",
        )),
    );
    match svc.process_assignment(4242) {
        Priority::Config(p) => assert_eq!(p.name, "games"),
        other => panic!("expected the games profile, got {other:?}"),
    }
}

#[test]
fn keep_drop_composition() {
    let mut svc = Service::new(paths());
    let keep_cond = Condition {
        descends: None,
        cgroup: None,
        name: None,
        parent: vec![MatchCondition::new("make")],
    };
    let drop_cond = Condition {
        descends: None,
        cgroup: None,
        name: Some(MatchCondition::new("strip")),
        parent: Vec::new(),
    };
    let coders = profile_with_nice("coders", -3);
    svc.config.process_scheduler.assignments.assign_by_condition(
        "coders",
        keep_cond,
        coders.clone(),
        true,
    );
    svc.config.process_scheduler.assignments.assign_by_condition(
        "coders",
        drop_cond,
        coders,
        false,
    );
    spawn(&mut svc, 100, 1, "make", "/usr/bin/make");
    spawn(&mut svc, 101, 100, "cc1", "/usr/lib/cc1");
    spawn(&mut svc, 102, 100, "strip", "/usr/bin/strip");

    match svc.process_assignment(101) {
        Priority::Config(p) => assert_eq!(p.name, "coders"),
        other => panic!("expected the coders profile, got {other:?}"),
    }
    assert!(matches!(svc.process_assignment(102), Priority::Assignable));
}

#[test]
fn refresh_keeps_ancestors_of_live_records() {
    let mut svc = focus_fixture();
    let observations = vec![ProcObservation {
        pid: 30,
        ppid: Some(20),
        cmdline: String::from("/bin/c"),
        cgroup: Some(String::from("grp")),
    }];
    svc.process_map_refresh(observations);

    // 30 was observed; 20 and 10 are its ancestors and stay walkable.
    assert!(svc.process_map.get_pid(30).is_some());
    assert!(svc.process_map.get_pid(20).is_some());
    assert!(svc.process_map.get_pid(10).is_some());
    // 40 was neither observed nor an ancestor of anything observed.
    assert!(svc.process_map.get_pid(40).is_none());
}

#[test]
fn classification_is_deterministic() {
    let svc = {
        let mut s = focus_fixture();
        s.config
            .process_scheduler
            .assignments
            .assign_by_name("b", profile_with_nice("quiet", 10));
        s
    };
    let first = format!("{:?}", svc.process_assignment(20));
    let second = format!("{:?}", svc.process_assignment(20));
    assert_eq!(first, second);
}

#[test]
fn applying_twice_is_a_no_op() {
    let svc = focus_fixture();
    let idx = svc.process_map.index_of_pid(20).unwrap();
    let once = svc.apply_process_priority(idx);
    let twice = svc.apply_process_priority(idx);
    match (once, twice) {
        (Some(a), Some(b)) => {
            assert_eq!(a.name, b.name);
            assert_eq!(a.nice.map(|n| n.get()), b.nice.map(|n| n.get()));
        }
        (None, None) => {}
        other => panic!("the two applications disagreed: {other:?}"),
    }
}

#[test]
fn refocusing_yields_the_same_set() {
    let mut svc = focus_fixture();
    svc.set_foreground_process(10);
    let first = svc.foreground_processes.clone();
    svc.set_foreground_process(10);
    assert_eq!(first, svc.foreground_processes);
}

#[test]
fn pipewire_round_trip_restores_records() {
    let mut svc = focus_fixture();
    svc.config.process_scheduler.pipewire = Some(profile_with_nice("pipewire", -4));

    let before: Vec<(u32, Option<u32>)> = svc
        .process_map
        .procs
        .iter()
        .map(|r| (r.id, r.pipewire_ancestor))
        .collect();

    svc.set_pipewire_process(10);
    svc.remove_pipewire_process(10);

    let after: Vec<(u32, Option<u32>)> = svc
        .process_map
        .procs
        .iter()
        .map(|r| (r.id, r.pipewire_ancestor))
        .collect();
    assert_eq!(before, after);
    assert!(matches!(svc.process_assignment(20), Priority::Assignable));
}

#[test]
fn rename_preserves_prior_name() {
    let mut svc = Service::new(paths());
    spawn(&mut svc, 50, 1, "old", "/bin/old");
    spawn(&mut svc, 50, 1, "new", "/bin/new");
    let rec = svc.process_map.get_pid(50).unwrap();
    assert_eq!(rec.forked_name, "old");
    assert_eq!(rec.forked_cmdline, "/bin/old");
    assert_eq!(rec.name, "new");
}

#[test]
fn kernel_thread_is_not_assignable() {
    let mut svc = Service::new(paths());
    svc.assign_new_process(60, 1, String::new(), String::new(), false, None, None);
    assert!(matches!(svc.process_assignment(60), Priority::NotAssignable));
}

#[test]
fn session_ancestor_recorded_for_descendants() {
    let mut svc = Service::new(paths());
    svc.config.process_scheduler.pipewire = Some(profile_with_nice("pipewire", -4));
    spawn(&mut svc, 70, 1, "p", "/bin/p");
    svc.set_pipewire_process(70);
    // A child admitted later walks its ancestors and finds the session.
    spawn(&mut svc, 71, 70, "q", "/bin/q");
    let rec = svc.process_map.get_pid(71).unwrap();
    assert_eq!(rec.pipewire_ancestor, Some(70));
}

#[test]
fn assign_children_admits_unseen_pids() {
    let mut svc = Service::new(paths());
    spawn(&mut svc, 80, 1, "root", "/bin/root");
    let scanned = vec![
        ChildObservation {
            pid: 81,
            ppid: 80,
            cmdline: String::from("/bin/w"),
            alive: true,
            observed_cgroup: Some(String::from("grp")),
        },
        ChildObservation {
            pid: 80,
            ppid: 1,
            cmdline: String::from("/bin/other"),
            alive: true,
            observed_cgroup: Some(String::from("grp")),
        },
    ];
    svc.assign_children(scanned);
    assert!(svc.process_map.get_pid(81).is_some());
    // The record that already existed is untouched.
    assert_eq!(svc.process_map.get_pid(80).unwrap().cmdline, "/bin/root");
}

#[test]
fn reload_resets_cached_verdicts() {
    let mut svc = focus_fixture();
    assert!(matches!(svc.process_assignment(10), Priority::Assignable));
    let mut config = system76_scheduler::config::Config::default();
    config
        .process_scheduler
        .assignments
        .assign_by_name("a", profile_with_nice("quiet", 10));
    svc.reload_configuration(config);
    // The cached verdict is gone until the next classification pass.
    assert!(matches!(svc.process_assignment(10), Priority::NotAssignable));
    let idx = svc.process_map.index_of_pid(10).unwrap();
    svc.assign_process_priority(idx);
    match svc.process_assignment(10) {
        Priority::Config(p) => assert_eq!(p.name, "quiet"),
        other => panic!("expected the quiet profile, got {other:?}"),
    }
}

#[test]
fn negated_name_condition() {
    let cond = MatchCondition::new("!foo");
    assert!(cond.matches("bar"));
    assert!(cond.matches("fo"));
    assert!(!cond.matches("foo"));
}

#[test]
fn parent_links_always_resolve() {
    let mut svc = focus_fixture();
    svc.set_foreground_process(10);
    let observations = vec![
        ProcObservation {
            pid: 30,
            ppid: Some(20),
            cmdline: String::from("/bin/c"),
            cgroup: Some(String::from("grp")),
        },
        ProcObservation {
            pid: 90,
            ppid: Some(77),
            cmdline: String::from("/bin/e"),
            cgroup: Some(String::from("grp")),
        },
    ];
    svc.process_map_refresh(observations);
    for record in &svc.process_map.procs {
        if let Some(parent) = record.parent {
            assert!(
                svc.process_map.get_pid(parent).is_some(),
                "record {} has a dangling parent link {parent}",
                record.id
            );
        }
    }
}

#[test]
fn verdict_enum_defaults() {
    let v = OwnedPriority::default();
    assert!(matches!(v, OwnedPriority::NotAssignable));
}
