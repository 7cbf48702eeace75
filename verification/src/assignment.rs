//! The flat per-process assignment model: a clamped CPU priority paired
//! with an I/O priority, and the eligibility rule for touching a process
//! that already carries a niceness.

use vstd::prelude::*;

use crate::profile::clamped;

verus! {

/// I/O priority level, restricted to 0 through 7.
#[derive(Clone, Copy, Debug, PartialEq, Eq, Structural)]
pub struct PriorityLevel(u8);

impl PriorityLevel {
    /// The stored level.
    pub closed spec fn value(self) -> int {
        self.0 as int
    }

    /// Value as a number.
    pub fn get(self) -> (r: u8)
        ensures
            r as int == self.value(),
    {
        self.0
    }

    /// Builds a level from a number, clamping values above 7 to 7.
    pub fn from(level: u8) -> (r: PriorityLevel)
        ensures
            r.value() == clamped(level as int, 0, 7),
    {
        PriorityLevel(if level > 7 {
            7
        } else {
            level
        })
    }
}

/// CPU priority, restricted to -20 through 19.
#[derive(Clone, Copy, Debug, PartialEq, Eq, Structural)]
pub struct CpuPriority(i8);

impl CpuPriority {
    /// The stored niceness.
    pub closed spec fn value(self) -> int {
        self.0 as int
    }

    /// Value as a number.
    pub fn get(self) -> (r: i8)
        ensures
            r as int == self.value(),
    {
        self.0
    }

    /// Builds a priority from a number, clamping it into `[-20, 19]`.
    pub fn from(level: i8) -> (r: CpuPriority)
        ensures
            r.value() == clamped(level as int, -20, 19),
    {
        CpuPriority(if level > 19 {
            19
        } else if level < -20 {
            -20
        } else {
            level
        })
    }
}

/// An I/O priority class with its level.
#[derive(Clone, Copy, Debug, PartialEq, Eq, Structural)]
pub enum IoPriority {
    /// Serviced only when no other class has work
    Idle,
    /// The kernel's default priority
    Standard,
    /// Best-effort at the given level
    BestEffort(PriorityLevel),
    /// Realtime at the given level
    Realtime(PriorityLevel),
}

/// A CPU priority together with an I/O priority.
#[derive(Clone, Copy, Debug, PartialEq, Eq, Structural)]
pub struct Assignment(pub CpuPriority, pub IoPriority);

/// The shapes an assignment is written in: just a CPU priority, just an
/// I/O priority, or both.
#[derive(Clone, Copy, Debug, PartialEq, Eq, Structural)]
pub enum AssignmentRaw {
    /// Only a CPU priority
    Cpu(CpuPriority),
    /// Only an I/O priority
    Io(IoPriority),
    /// Both parts
    Both(CpuPriority, IoPriority),
}

impl Assignment {
    /// Fills the part a raw assignment leaves out: a missing I/O priority
    /// becomes standard, a missing CPU priority becomes zero.
    pub fn from(raw: AssignmentRaw) -> (r: Assignment)
        ensures
            r == (match raw {
                AssignmentRaw::Cpu(cpu) => Assignment(cpu, IoPriority::Standard),
                AssignmentRaw::Io(io) => Assignment(CpuPriority::from_spec_zero(), io),
                AssignmentRaw::Both(cpu, io) => Assignment(cpu, io),
            }),
    {
        match raw {
            AssignmentRaw::Cpu(cpu) => Assignment(cpu, IoPriority::Standard),
            AssignmentRaw::Io(io) => Assignment(CpuPriority::from(0), io),
            AssignmentRaw::Both(cpu, io) => Assignment(cpu, io),
        }
    }
}

impl CpuPriority {
    /// The zero priority, the fallback of a raw I/O-only assignment.
    pub closed spec fn from_spec_zero() -> CpuPriority {
        CpuPriority(0)
    }

    /// The zero value of the fallback priority.
    pub proof fn lemma_zero()
        ensures
            CpuPriority::from_spec_zero().value() == 0,
    {
    }
}

/// The flat classification a process receives under this model.
#[derive(Clone, Copy, Debug)]
pub enum Priority {
    /// Eligible for the default assignment
    Assignable,
    /// A configured assignment applies
    Config(i32, IoPriority),
    /// Left alone
    NotAssignable,
}

impl Priority {
    /// The assignment to apply: the configured one, the given default for
    /// an assignable process, and nothing otherwise.
    pub fn with_default(self, priority: (i32, IoPriority)) -> (r: Option<(i32, IoPriority)>)
        ensures
            r == (match self {
                Priority::Assignable => Some(priority),
                Priority::Config(cpu, io) => Some((cpu, io)),
                Priority::NotAssignable => None::<(i32, IoPriority)>,
            }),
    {
        match self {
            Priority::Assignable => Some(priority),
            Priority::Config(cpu, io) => Some((cpu, io)),
            Priority::NotAssignable => None,
        }
    }
}

/// Whether a process's priority may be changed: only processes whose
/// current niceness sits in `[-9, 9]` are touched, so that manually
/// boosted or punished processes are left alone.
pub fn is_assignable(current: i32) -> (r: bool)
    ensures
        r == (-9 <= current <= 9),
{
    current <= 9 && current >= -9
}

} // verus!
