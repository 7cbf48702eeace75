//! Checks of the text adapters: procfs readers, the audio-session wire
//! format, the control surface and the wildcard matcher.

use system76_scheduler::control::{ControlEvent, CpuMode, Server};
use system76_scheduler::pipewire::{MonitorSet, ProcessEvent};
use system76_scheduler::procfs;
use system76_scheduler::text::{str_eq, str_lt};
use system76_scheduler::wildcard::{wild_match, MatchCondition};

#[test]
fn basename_of_paths() {
    assert_eq!(procfs::name("/usr/bin/tar"), "tar");
    assert_eq!(procfs::name("bash"), "bash");
    assert_eq!(procfs::name("/trailing/"), "");
    assert_eq!(procfs::name(""), "");
}

#[test]
fn cgroup_extraction() {
    assert_eq!(
        procfs::cgroup("0::/user.slice/user-1000.slice\n"),
        Some("/user.slice/user-1000.slice")
    );
    assert_eq!(procfs::cgroup("0::/a"), Some("/a"));
    assert_eq!(procfs::cgroup("nocolons"), None);
    assert_eq!(procfs::cgroup("one:only"), None);
}

#[test]
fn parent_id_from_status() {
    let status = "Name:\tbash\nUmask:\t0022\nPPid:\t42\nTracerPid:\t0\n";
    assert_eq!(procfs::parent_id(status), Some(42));
    assert_eq!(procfs::parent_id("Name:\tbash\n"), None);
}

#[test]
fn file_key_trims_the_value() {
    let status = "Name:\t  spaced  \nPPid:\t7\n";
    assert_eq!(procfs::file_key(status, "Name:"), Some("spaced"));
    assert_eq!(procfs::file_key(status, "Missing:"), None);
}

#[test]
fn children_lists_pids() {
    assert_eq!(procfs::children("123 456 789\n"), vec![123, 456, 789]);
    assert_eq!(procfs::children(""), Vec::<u32>::new());
    assert_eq!(procfs::children("  12\t34  "), vec![12, 34]);
}

#[test]
fn parse_u32_bounds() {
    assert_eq!(procfs::parse_u32("0"), Some(0));
    assert_eq!(procfs::parse_u32("4294967295"), Some(u32::MAX));
    assert_eq!(procfs::parse_u32("4294967296"), None);
    assert_eq!(procfs::parse_u32(""), None);
    assert_eq!(procfs::parse_u32("12a"), None);
}

#[test]
fn cmdline_takes_first_token() {
    assert_eq!(procfs::cmdline("/usr/bin/x (deleted)"), "/usr/bin/x");
    assert_eq!(procfs::cmdline("   "), "");
    assert_eq!(procfs::cmdline("/usr/bin/y"), "/usr/bin/y");
}

#[test]
fn wire_format_round_trip() {
    for event in [
        ProcessEvent::Add(0),
        ProcessEvent::Add(123),
        ProcessEvent::Remove(7),
        ProcessEvent::Remove(u32::MAX),
    ] {
        let bytes = event.to_bytes();
        assert_eq!(ProcessEvent::from_bytes(&bytes), Some(event));
    }
}

#[test]
fn wire_format_parsing() {
    assert_eq!(ProcessEvent::from_bytes(b"add 123\n"), Some(ProcessEvent::Add(123)));
    assert_eq!(ProcessEvent::from_bytes(b"rem 7"), Some(ProcessEvent::Remove(7)));
    assert_eq!(ProcessEvent::from_bytes(b"bogus 1"), None);
    assert_eq!(ProcessEvent::from_bytes(b"add x"), None);
    assert_eq!(ProcessEvent::from_bytes(b"add"), None);
    assert_eq!(ProcessEvent::from_bytes(b""), None);
}

#[test]
fn monitor_forwards_each_change_once() {
    let mut monitor = MonitorSet::new();
    assert!(monitor.note(&ProcessEvent::Add(5)));
    assert!(!monitor.note(&ProcessEvent::Add(5)));
    assert!(monitor.note(&ProcessEvent::Remove(5)));
    assert!(!monitor.note(&ProcessEvent::Remove(5)));
}

#[test]
fn control_profile_names_select_modes() {
    let mut server = Server { cpu_mode: CpuMode::Auto, cpu_profile: String::new() };
    assert_eq!(
        server.set_cpu_profile(String::from("responsive")),
        Some(ControlEvent::SetCpuMode)
    );
    assert_eq!(server.cpu_mode, CpuMode::Responsive);
    assert_eq!(
        server.set_cpu_profile(String::from("performance")),
        Some(ControlEvent::SetCustomCpuMode)
    );
    assert_eq!(server.cpu_mode, CpuMode::Custom);
    assert_eq!(server.set_cpu_profile(String::new()), None);
    assert_eq!(server.cpu_mode, CpuMode::Custom);
    assert_eq!(server.set_cpu_profile(String::from("auto")), Some(ControlEvent::SetCpuMode));
    assert_eq!(server.cpu_mode, CpuMode::Auto);
}

#[test]
fn wildcards_match_like_globs() {
    assert!(wild_match("*", ""));
    assert!(wild_match("*", "anything"));
    assert!(wild_match("a*c", "abc"));
    assert!(wild_match("a*c", "ac"));
    assert!(!wild_match("a*c", "ab"));
    assert!(wild_match("a?c", "abc"));
    assert!(!wild_match("a?c", "ac"));
    assert!(wild_match("*/game.slice/*", "0::/user.slice/game.slice/wine"));
}

#[test]
fn negation_is_per_pattern() {
    assert!(MatchCondition::new("!*.bak").matches("main.rs"));
    assert!(!MatchCondition::new("!*.bak").matches("old.bak"));
    assert!(MatchCondition::new("plain").matches("plain"));
}

#[test]
fn string_helpers() {
    assert!(str_eq("abc", "abc"));
    assert!(!str_eq("abc", "abd"));
    assert!(str_lt("abc", "abd"));
    assert!(str_lt("ab", "abc"));
    assert!(!str_lt("abc", "abc"));
    assert!(!str_lt("b", "abc"));
}
