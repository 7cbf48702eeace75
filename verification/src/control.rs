//! The control surface's state: the CPU mode, the selected profile name,
//! and the decision each request maps to.

use vstd::prelude::*;

verus! {

/// How the CFS profile is chosen.
#[derive(Clone, Copy, Debug, PartialEq, Eq, Structural)]
pub enum CpuMode {
    /// Follow the battery state
    Auto,
    /// A named custom profile
    Custom,
    /// The default profile
    Default,
    /// The responsive profile
    Responsive,
}

/// What a control request asks the event loop to do next.
#[derive(Clone, Copy, Debug, PartialEq, Eq, Structural)]
pub enum ControlEvent {
    /// Re-apply the profile the current mode selects
    SetCpuMode,
    /// Apply the custom profile by name
    SetCustomCpuMode,
}

/// The state behind the control surface.
#[derive(Debug)]
pub struct Server {
    /// The current mode
    pub cpu_mode: CpuMode,
    /// The current profile name
    pub cpu_profile: String,
}

impl Server {
    /// Selects a mode.
    pub fn set_cpu_mode(&mut self, cpu_mode: CpuMode) -> (r: ControlEvent)
        ensures
            final(self).cpu_mode == cpu_mode,
            final(self).cpu_profile == old(self).cpu_profile,
            r == ControlEvent::SetCpuMode,
    {
        self.cpu_mode = cpu_mode;
        ControlEvent::SetCpuMode
    }

    /// Selects a profile by name: the three well-known names pick their
    /// modes, an empty name changes nothing beyond the stored text, and
    /// any other name switches to the custom mode.
    pub fn set_cpu_profile(&mut self, profile: String) -> (r: Option<ControlEvent>)
        ensures
            final(self).cpu_profile == profile,
            ({
                if profile@ == "auto"@ {
                    final(self).cpu_mode == CpuMode::Auto && r == Some(ControlEvent::SetCpuMode)
                } else if profile@ == "default"@ {
                    final(self).cpu_mode == CpuMode::Default && r == Some(ControlEvent::SetCpuMode)
                } else if profile@ == "responsive"@ {
                    final(self).cpu_mode == CpuMode::Responsive && r == Some(
                        ControlEvent::SetCpuMode,
                    )
                } else if profile@ =~= Seq::<char>::empty() {
                    final(self).cpu_mode == old(self).cpu_mode && r is None
                } else {
                    final(self).cpu_mode == CpuMode::Custom && r == Some(
                        ControlEvent::SetCustomCpuMode,
                    )
                }
            }),
    {
        let is_auto = crate::text::str_eq(profile.as_str(), "auto");
        let is_default = crate::text::str_eq(profile.as_str(), "default");
        let is_responsive = crate::text::str_eq(profile.as_str(), "responsive");
        let is_empty = profile.as_str().is_empty();
        self.cpu_profile = profile;
        if is_auto {
            Some(self.set_cpu_mode(CpuMode::Auto))
        } else if is_default {
            Some(self.set_cpu_mode(CpuMode::Default))
        } else if is_responsive {
            Some(self.set_cpu_mode(CpuMode::Responsive))
        } else if is_empty {
            None
        } else {
            self.cpu_mode = CpuMode::Custom;
            Some(ControlEvent::SetCustomCpuMode)
        }
    }
}

} // verus!
