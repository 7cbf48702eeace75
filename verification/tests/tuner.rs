//! Checks of the CFS tuner, the clamped value types and the flat
//! assignment model.

use system76_scheduler::assignment::{
    is_assignable, Assignment, AssignmentRaw, CpuPriority, IoPriority as FlatIoPriority,
    PriorityLevel, Priority as FlatPriority,
};
use system76_scheduler::cfs::{
    latency_modifier, preempt_default, profile_default, profile_responsive, tweak,
    tweak_with_cpus, SchedPaths, SchedPathsError,
};
use system76_scheduler::profile::{IoClass, IoPriority, Niceness, SchedPolicy, SchedPriority};
use system76_scheduler::rules::Assignments;

#[test]
fn mod_latency_modifier() {
    assert_eq!(5_000_000, latency_modifier(16));
}

#[test]
fn cpu_latency_modifier() {
    assert_eq!(5_000_000, latency_modifier(16));
}

#[test]
fn latency_modifier_edges() {
    assert_eq!(1_000_000, latency_modifier(1));
    assert_eq!(2_000_000, latency_modifier(2));
    assert_eq!(2_000_000, latency_modifier(3));
    assert_eq!(3_000_000, latency_modifier(4));
    assert_eq!(64_000_000, latency_modifier(u64::MAX));
}

#[test]
fn cfs_retune_on_battery() {
    let paths = SchedPaths::new(true, false, false).unwrap();
    let writes = tweak_with_cpus(&paths, &profile_default(), 16);
    assert_eq!(writes.len(), 4);
    assert_eq!(writes[0].path, "/sys/kernel/debug/sched/latency_ns");
    assert_eq!(writes[0].number, Some(30_000_000));
    assert_eq!(writes[1].number, Some(3_750_000));
    assert_eq!(writes[2].number, Some(5_000_000));
    assert_eq!(writes[3].path, "/proc/sys/kernel/sched_cfs_bandwidth_slice_us");
    assert_eq!(writes[3].number, Some(5_000));
}

#[test]
fn tweak_uses_the_machine_cpu_count() {
    let paths = SchedPaths::new(true, false, true).unwrap();
    let writes = tweak(&paths, &profile_responsive());
    assert_eq!(writes.len(), 5);
    // The modifier is one million times a count-derived factor of at
    // least one, so the latency write cannot be the profile's raw value.
    let latency = writes[0].number.unwrap();
    assert!(latency >= 4_000_000);
    assert_eq!(latency % 4_000_000, 0);
    assert_eq!(writes[3].number, Some(3_000));
    assert_eq!(writes[4].text.as_deref(), Some("full"));
}

#[test]
fn sched_paths_selection() {
    let debugfs = SchedPaths::new(true, true, true).unwrap();
    assert_eq!(debugfs.latency, "/sys/kernel/debug/sched/latency_ns");
    assert_eq!(debugfs.preempt.as_deref(), Some("/sys/kernel/debug/sched/preempt"));
    let procfs = SchedPaths::new(false, true, false).unwrap();
    assert_eq!(procfs.latency, "/proc/sys/kernel/sched_latency_ns");
    assert!(procfs.preempt.is_none());
    assert!(matches!(
        SchedPaths::new(false, false, false),
        Err(SchedPathsError::NotSupported)
    ));
}

#[test]
fn builtin_profiles() {
    let default = profile_default();
    assert_eq!(default.latency, 6);
    assert_eq!(default.nr_latency, 8);
    assert_eq!(default.wakeup_granularity, 1000);
    assert_eq!(default.bandwidth_size, 5);
    assert_eq!(default.preempt, "voluntary");
    let responsive = profile_responsive();
    assert_eq!(responsive.latency, 4);
    assert_eq!(responsive.preempt, "full");
    assert_eq!(preempt_default(), "voluntary");
}

#[test]
fn niceness_clamps() {
    assert_eq!(Niceness::from(-25).get(), -20);
    assert_eq!(Niceness::from(30).get(), 19);
    assert_eq!(Niceness::from(7).get(), 7);
    assert_eq!(Niceness::default().get(), 0);
}

#[test]
fn realtime_priority_clamps() {
    assert_eq!(SchedPriority::from(0).get(), 1);
    assert_eq!(SchedPriority::from(150).get(), 99);
    assert_eq!(SchedPriority::from(42).get(), 42);
    assert_eq!(SchedPriority::default().get(), 1);
}

#[test]
fn io_level_clamps() {
    assert_eq!(IoPriority::from(9).get(), 7);
    assert_eq!(IoPriority::from(3).get(), 3);
    assert_eq!(IoPriority::default().get(), 7);
    assert_eq!(PriorityLevel::from(9).get(), 7);
    assert_eq!(CpuPriority::from(-30).get(), -20);
    assert_eq!(CpuPriority::from(25).get(), 19);
}

#[test]
fn class_and_policy_names() {
    assert_eq!(IoClass::from_str("idle"), Ok(IoClass::Idle));
    assert_eq!(IoClass::from_str("best-effort"), Ok(IoClass::BestEffort));
    assert_eq!(IoClass::from_str("realtime"), Ok(IoClass::Realtime));
    assert_eq!(IoClass::from_str("bogus"), Err(()));
    assert_eq!(SchedPolicy::from_str("batch"), Ok(SchedPolicy::Batch));
    assert_eq!(SchedPolicy::from_str("rr"), Ok(SchedPolicy::Rr));
    assert_eq!(SchedPolicy::from_str("deadline"), Err(()));
    assert!(SchedPolicy::Fifo.is_realtime());
    assert!(SchedPolicy::Rr.is_realtime());
    assert!(!SchedPolicy::Other.is_realtime());
}

#[test]
fn flat_assignments() {
    assert!(is_assignable(9));
    assert!(is_assignable(-9));
    assert!(!is_assignable(10));
    assert!(!is_assignable(-10));
    assert_eq!(
        Assignment::from(AssignmentRaw::Cpu(CpuPriority::from(3))),
        Assignment(CpuPriority::from(3), FlatIoPriority::Standard)
    );
    assert_eq!(
        Assignment::from(AssignmentRaw::Io(FlatIoPriority::Idle)),
        Assignment(CpuPriority::from(0), FlatIoPriority::Idle)
    );
    let chosen = FlatPriority::Config(3, FlatIoPriority::Idle)
        .with_default((0, FlatIoPriority::Standard));
    assert_eq!(chosen, Some((3, FlatIoPriority::Idle)));
    let fallback = FlatPriority::Assignable.with_default((2, FlatIoPriority::Standard));
    assert_eq!(fallback, Some((2, FlatIoPriority::Standard)));
    assert_eq!(
        FlatPriority::NotAssignable.with_default((2, FlatIoPriority::Standard)),
        None
    );
}

#[test]
fn rule_tables_upsert_and_remove() {
    let mut rules = Assignments::new();
    let mut quiet = system76_scheduler::profile::Profile::new(String::from("quiet"));
    quiet.nice = Some(Niceness::from(10));
    rules.assign_by_name("bash", quiet.clone());
    let mut louder = quiet.clone();
    louder.nice = Some(Niceness::from(-10));
    rules.assign_by_name("bash", louder);
    assert_eq!(rules.get_by_name("bash").unwrap().nice.unwrap().get(), -10);
    assert!(rules.get_by_name("zsh").is_none());

    rules.assign_exception_by_name("init");
    rules.assign_exception_by_name("init");
    assert!(rules.is_exception_by_name("init"));
    assert!(!rules.is_exception_by_name("bash"));

    rules.profile_insert(String::from("quiet"), quiet);
    assert!(rules.profile("quiet").is_some());
    assert!(rules.profile_remove("quiet").is_some());
    assert!(rules.profile("quiet").is_none());
}

#[test]
fn special_profiles_move_into_the_overlays() {
    let mut config = system76_scheduler::config::SchedulerConfig::default();
    let mut bg = system76_scheduler::profile::Profile::new(String::from("background"));
    bg.nice = Some(Niceness::from(5));
    let mut fg = system76_scheduler::profile::Profile::new(String::from("foreground"));
    fg.nice = Some(Niceness::from(-5));
    let pw = system76_scheduler::profile::Profile::new(String::from("pipewire"));
    config.assignments.profile_insert(String::from("background"), bg);
    config.assignments.profile_insert(String::from("foreground"), fg);
    config.assignments.profile_insert(String::from("pipewire"), pw);
    config.adopt_special_profiles();
    let pair = config.foreground.as_ref().unwrap();
    assert_eq!(pair.background.nice.unwrap().get(), 5);
    assert_eq!(pair.foreground.nice.unwrap().get(), -5);
    assert!(config.pipewire.is_some());
    assert!(config.assignments.profile("background").is_none());
    assert!(config.assignments.profile("pipewire").is_none());
}
