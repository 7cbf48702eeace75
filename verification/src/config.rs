//! The daemon's configuration: autogroup toggle, CFS profiles, and the
//! process-scheduler section with its compiled assignments.

use vstd::prelude::*;

use crate::profile::Profile;
use crate::rules::{kv_contains, kv_has, kv_removed_key, Assignments};

verus! {

/// The profile pair the focus overlay switches between.
#[derive(Debug)]
pub struct ForegroundAssignments {
    /// Applied to everything assignable outside the focused tree
    pub background: Profile,
    /// Applied to the focused process and its descendants
    pub foreground: Profile,
}

impl Clone for ForegroundAssignments {
    fn clone(&self) -> (r: Self)
        ensures
            r == *self,
    {
        ForegroundAssignments {
            background: self.background.clone(),
            foreground: self.foreground.clone(),
        }
    }
}

/// Process scheduling configuration.
#[derive(Debug)]
pub struct SchedulerConfig {
    /// Enables process scheduling
    pub enable: bool,
    /// Enables the exec-notifier source
    pub execsnoop: bool,
    /// Defines the refresh rate for polling processes, in seconds
    pub refresh_rate: u16,
    /// Process profile assignments
    pub assignments: Assignments,
    /// Foreground and background profiles, when focus handling is on
    pub foreground: Option<ForegroundAssignments>,
    /// The profile for audio-session processes, when one is configured
    pub pipewire: Option<Profile>,
}

impl SchedulerConfig {
    /// The compiled assignments are well formed.
    pub open spec fn wf(self) -> bool {
        self.assignments.wf()
    }

    /// Process scheduling off, refresh every minute, nothing assigned.
    pub fn default() -> (r: Self)
        ensures
            r.wf(),
            !r.enable,
            !r.execsnoop,
            r.refresh_rate == 60,
            r.foreground is None,
            r.pipewire is None,
            r.assignments.conditions@.len() == 0,
            r.assignments.exceptions_by_name@.len() == 0,
            r.assignments.exceptions_by_cmdline@.len() == 0,
            r.assignments.exceptions_conditions@.len() == 0,
            r.assignments.profiles@.len() == 0,
            r.assignments.profile_by_name@.len() == 0,
            r.assignments.profile_by_cmdline@.len() == 0,
    {
        SchedulerConfig {
            enable: false,
            execsnoop: false,
            refresh_rate: 60,
            assignments: Assignments::new(),
            foreground: None,
            pipewire: None,
        }
    }

    /// Moves the specially named profiles out of the profile table: the
    /// `background` and `foreground` pair feeds the focus overlay when
    /// both are present, and `pipewire` feeds the audio-session overlay.
    pub fn adopt_special_profiles(&mut self)
        requires
            old(self).wf(),
        ensures
            final(self).wf(),
            final(self).enable == old(self).enable,
            final(self).execsnoop == old(self).execsnoop,
            final(self).refresh_rate == old(self).refresh_rate,
            final(self).assignments.conditions@ == old(self).assignments.conditions@,
            final(self).assignments.exceptions_by_name@ == old(
                self,
            ).assignments.exceptions_by_name@,
            final(self).assignments.exceptions_by_cmdline@ == old(
                self,
            ).assignments.exceptions_by_cmdline@,
            final(self).assignments.exceptions_conditions@ == old(
                self,
            ).assignments.exceptions_conditions@,
            final(self).assignments.profile_by_name@ == old(self).assignments.profile_by_name@,
            final(self).assignments.profile_by_cmdline@ == old(
                self,
            ).assignments.profile_by_cmdline@,
            if kv_contains(old(self).assignments.profiles@, "background"@) && kv_contains(
                old(self).assignments.profiles@,
                "foreground"@,
            ) {
                final(self).foreground matches Some(fa) && kv_has(
                    old(self).assignments.profiles@,
                    "background"@,
                    fa.background,
                ) && kv_has(old(self).assignments.profiles@, "foreground"@, fa.foreground)
            } else {
                final(self).foreground == old(self).foreground
            },
            if kv_contains(old(self).assignments.profiles@, "pipewire"@) {
                final(self).pipewire matches Some(p) && kv_has(
                    old(self).assignments.profiles@,
                    "pipewire"@,
                    p,
                )
            } else {
                final(self).pipewire == old(self).pipewire
            },
            !kv_contains(final(self).assignments.profiles@, "background"@),
            !kv_contains(final(self).assignments.profiles@, "foreground"@),
            !kv_contains(final(self).assignments.profiles@, "pipewire"@),
            forall|k: Seq<char>|
                k != "background"@ && k != "foreground"@ && k != "pipewire"@ ==> (
                #[trigger] kv_contains(final(self).assignments.profiles@, k)) == kv_contains(
                    old(self).assignments.profiles@,
                    k,
                ),
    {
        let ghost p0 = self.assignments.profiles@;
        let background = self.assignments.profile_remove("background");
        let ghost p1 = self.assignments.profiles@;
        let foreground = self.assignments.profile_remove("foreground");
        let ghost p2 = self.assignments.profiles@;
        if let (Some(background), Some(foreground)) = (background, foreground) {
            self.foreground = Some(ForegroundAssignments { background, foreground });
        }
        let pipewire = self.assignments.profile_remove("pipewire");
        if let Some(pipewire) = pipewire {
            self.pipewire = Some(pipewire);
        }
        proof {
            reveal_strlit("background");
            reveal_strlit("foreground");
            reveal_strlit("pipewire");
            assert("foreground"@[0] != "background"@[0]);
            assert("pipewire"@.len() != "background"@.len());
            assert("pipewire"@.len() != "foreground"@.len());
            assert(kv_contains(p1, "foreground"@) == kv_contains(p0, "foreground"@));
            assert(kv_contains(p2, "pipewire"@) == kv_contains(p0, "pipewire"@));
            assert(!kv_contains(self.assignments.profiles@, "background"@));
            assert(!kv_contains(self.assignments.profiles@, "foreground"@));
        }
    }
}

/// The daemon's whole configuration.
#[derive(Debug)]
pub struct Config {
    /// Controls autogrouping status
    pub autogroup_enabled: bool,
    /// CFS profiles
    pub cfs_profiles: crate::cfs::Config,
    /// Process scheduler config
    pub process_scheduler: SchedulerConfig,
}

impl Config {
    /// Both sections are well formed.
    pub open spec fn wf(self) -> bool {
        &&& self.cfs_profiles.wf()
        &&& self.process_scheduler.wf()
    }

    /// Everything off, with the built-in CFS profiles.
    pub fn default() -> (r: Self)
        ensures
            r.wf(),
            !r.autogroup_enabled,
            !r.cfs_profiles.enable,
            !r.process_scheduler.enable,
            r.process_scheduler.foreground is None,
            r.process_scheduler.pipewire is None,
            r.process_scheduler.assignments.conditions@.len() == 0,
            r.process_scheduler.assignments.exceptions_by_name@.len() == 0,
            r.process_scheduler.assignments.exceptions_by_cmdline@.len() == 0,
            r.process_scheduler.assignments.exceptions_conditions@.len() == 0,
            r.process_scheduler.assignments.profile_by_name@.len() == 0,
            r.process_scheduler.assignments.profile_by_cmdline@.len() == 0,
    {
        Config {
            autogroup_enabled: false,
            cfs_profiles: crate::cfs::Config::default(),
            process_scheduler: SchedulerConfig::default(),
        }
    }
}

} // verus!
