//! Priority values and scheduling profiles.
//!
//! Each numeric newtype clamps its argument into the range the kernel
//! accepts; a profile bundles the niceness, I/O priority and scheduler
//! policy that one rule assigns.

use vstd::prelude::*;

verus! {

/// Spec-level clamp of an integer into `[lo, hi]`.
pub open spec fn clamped(value: int, lo: int, hi: int) -> int {
    if value > hi {
        hi
    } else if value < lo {
        lo
    } else {
        value
    }
}

/// I/O scheduling class, as named in configuration text.
#[derive(Clone, Copy, Debug, PartialEq, Eq, Structural)]
pub enum IoClass {
    /// Serviced only when no other class has work
    Idle,
    /// The kernel's default class
    BestEffort,
    /// Serviced before every other class
    Realtime,
}

impl IoClass {
    /// Parses the textual name of an I/O class.
    pub fn from_str(s: &str) -> (r: Result<IoClass, ()>)
        ensures
            r == (if s@ == "idle"@ {
                Ok::<IoClass, ()>(IoClass::Idle)
            } else if s@ == "best-effort"@ {
                Ok::<IoClass, ()>(IoClass::BestEffort)
            } else if s@ == "realtime"@ {
                Ok::<IoClass, ()>(IoClass::Realtime)
            } else {
                Err::<IoClass, ()>(())
            }),
    {
        if crate::text::str_eq(s, "idle") {
            Ok(IoClass::Idle)
        } else if crate::text::str_eq(s, "best-effort") {
            Ok(IoClass::BestEffort)
        } else if crate::text::str_eq(s, "realtime") {
            Ok(IoClass::Realtime)
        } else {
            Err(())
        }
    }
}

/// I/O priority level, restricted to 0 through 7.
#[derive(Clone, Copy, Debug, PartialEq, Eq, Structural)]
pub struct IoPriority(u8);

impl IoPriority {
    /// The stored level.
    pub closed spec fn value(self) -> int {
        self.0 as int
    }

    /// Value as a number.
    pub fn get(self) -> (r: u8)
        ensures
            r as int == self.value(),
    {
        self.0
    }

    /// Builds a level from a number, clamping values above 7 to 7.
    pub fn from(level: u8) -> (r: IoPriority)
        ensures
            r.value() == clamped(level as int, 0, 7),
    {
        IoPriority(if level > 7 {
            7
        } else {
            level
        })
    }
}

impl Default for IoPriority {
    /// The lowest best-effort level.
    fn default() -> (r: Self)
        ensures
            r.value() == 7,
    {
        IoPriority(7)
    }
}

/// An I/O class together with the level inside that class.
#[derive(Clone, Copy, Debug, PartialEq, Eq, Structural)]
pub enum IoPolicy {
    /// Serviced only when no other class has work
    Idle,
    /// The kernel's default priority
    Standard,
    /// Best-effort at the given level
    BestEffort(IoPriority),
    /// Realtime at the given level
    Realtime(IoPriority),
}

/// Niceness, restricted to -20 through 19.
#[derive(Clone, Copy, Debug, PartialEq, Eq, Structural)]
pub struct Niceness(i8);

impl Niceness {
    /// The stored niceness.
    pub closed spec fn value(self) -> int {
        self.0 as int
    }

    /// Value as a number.
    pub fn get(self) -> (r: i8)
        ensures
            r as int == self.value(),
    {
        self.0
    }

    /// Builds a niceness from a number, clamping it into `[-20, 19]`.
    pub fn from(level: i8) -> (r: Niceness)
        ensures
            r.value() == clamped(level as int, -20, 19),
    {
        Niceness(if level > 19 {
            19
        } else if level < -20 {
            -20
        } else {
            level
        })
    }
}

impl Default for Niceness {
    /// The kernel's default niceness.
    fn default() -> (r: Self)
        ensures
            r.value() == 0,
    {
        Niceness(0)
    }
}

/// Scheduler policy.
#[derive(Clone, Copy, Debug, PartialEq, Eq, Structural)]
pub enum SchedPolicy {
    /// SCHED_BATCH
    Batch,
    /// SCHED_FIFO
    Fifo,
    /// SCHED_IDLE
    Idle,
    /// SCHED_OTHER
    Other,
    /// SCHED_RR
    Rr,
}

impl SchedPolicy {
    /// Whether the policy is realtime (FIFO or RR).
    pub fn is_realtime(self) -> (r: bool)
        ensures
            r == (self == SchedPolicy::Fifo || self == SchedPolicy::Rr),
    {
        matches!(self, SchedPolicy::Fifo | SchedPolicy::Rr)
    }

    /// Parses the textual name of a policy.
    pub fn from_str(s: &str) -> (r: Result<SchedPolicy, ()>)
        ensures
            r == (if s@ == "batch"@ {
                Ok::<SchedPolicy, ()>(SchedPolicy::Batch)
            } else if s@ == "fifo"@ {
                Ok::<SchedPolicy, ()>(SchedPolicy::Fifo)
            } else if s@ == "idle"@ {
                Ok::<SchedPolicy, ()>(SchedPolicy::Idle)
            } else if s@ == "other"@ {
                Ok::<SchedPolicy, ()>(SchedPolicy::Other)
            } else if s@ == "rr"@ {
                Ok::<SchedPolicy, ()>(SchedPolicy::Rr)
            } else {
                Err::<SchedPolicy, ()>(())
            }),
    {
        if crate::text::str_eq(s, "batch") {
            Ok(SchedPolicy::Batch)
        } else if crate::text::str_eq(s, "fifo") {
            Ok(SchedPolicy::Fifo)
        } else if crate::text::str_eq(s, "idle") {
            Ok(SchedPolicy::Idle)
        } else if crate::text::str_eq(s, "other") {
            Ok(SchedPolicy::Other)
        } else if crate::text::str_eq(s, "rr") {
            Ok(SchedPolicy::Rr)
        } else {
            Err(())
        }
    }
}

impl Default for SchedPolicy {
    /// SCHED_OTHER, the kernel's default.
    fn default() -> (r: Self)
        ensures
            r == SchedPolicy::Other,
    {
        SchedPolicy::Other
    }
}

/// Realtime scheduler priority, restricted to 1 through 99.
#[derive(Clone, Copy, Debug, PartialEq, Eq, Structural)]
pub struct SchedPriority(u8);

impl SchedPriority {
    /// The stored priority.
    pub closed spec fn value(self) -> int {
        self.0 as int
    }

    /// Value as a number.
    pub fn get(self) -> (r: u8)
        ensures
            r as int == self.value(),
    {
        self.0
    }

    /// Builds a priority from a number, clamping it into `[1, 99]`.
    pub fn from(level: u8) -> (r: SchedPriority)
        ensures
            r.value() == clamped(level as int, 1, 99),
    {
        SchedPriority(if level > 99 {
            99
        } else if level < 1 {
            1
        } else {
            level
        })
    }
}

impl Default for SchedPriority {
    /// The lowest realtime priority.
    fn default() -> (r: Self)
        ensures
            r.value() == 1,
    {
        SchedPriority(1)
    }
}

/// A scheduler policy together with its realtime priority.
#[derive(Clone, Copy, Debug, PartialEq, Eq, Structural)]
pub struct Scheduler {
    /// Scheduler policy
    pub policy: SchedPolicy,
    /// Scheduler priority
    pub priority: SchedPriority,
}

/// The bundle of priority settings that one rule assigns to a process.
#[derive(Debug)]
pub struct Profile {
    /// The profile's name in the rule set
    pub name: String,
    /// Niceness to apply, when present
    pub nice: Option<Niceness>,
    /// I/O priority class and level
    pub io: IoPolicy,
    /// Scheduler policy
    pub sched_policy: SchedPolicy,
    /// Realtime priority for FIFO and RR policies
    pub sched_priority: SchedPriority,
}

impl Clone for Profile {
    fn clone(&self) -> (r: Self)
        ensures
            r == *self,
    {
        Profile {
            name: self.name.clone(),
            nice: self.nice,
            io: self.io,
            sched_policy: self.sched_policy,
            sched_priority: self.sched_priority,
        }
    }
}

impl Profile {
    /// The settings every profile starts from: no niceness change, lowest
    /// best-effort I/O priority, the default scheduler policy.
    pub fn new(name: String) -> (r: Profile)
        ensures
            r.name == name,
            r.nice is None,
            (r.io matches IoPolicy::BestEffort(level) && level.value() == 7),
            r.sched_policy == SchedPolicy::Other,
            r.sched_priority.value() == 1,
    {
        Profile {
            name,
            nice: None,
            io: IoPolicy::BestEffort(IoPriority(7)),
            sched_policy: SchedPolicy::Other,
            sched_priority: SchedPriority(1),
        }
    }
}

} // verus!
