//! Completely Fair Scheduler tunables: profiles, the sysfs paths they are
//! written to, and the values computed from the CPU count.
//!
//! A profile's wakeup granularity is kept in thousandths, so that a value
//! of one half is the integer five hundred.

use vstd::prelude::*;

verus! {

/// The bandwidth-slice sysctl path.
pub const BANDWIDTH_SIZE_PATH: &'static str = "/proc/sys/kernel/sched_cfs_bandwidth_slice_us";

/// The debug-fs preemption-mode path.
pub const PREEMPT_PATH: &'static str = "/sys/kernel/debug/sched/preempt";

/// A bundle of CFS tunable inputs.
#[derive(Debug)]
pub struct Profile {
    /// Preemption latency for CPU-bound tasks in ns
    pub latency: u64,
    /// Used to calculate the minimum preemption granularity
    pub nr_latency: u64,
    /// Wakeup preemption granularity in thousandths of a ms
    pub wakeup_granularity: u64,
    /// Amount of time to allocate from global to local pool in us
    pub bandwidth_size: u64,
    /// The type of preemption to use
    pub preempt: String,
}

impl Profile {
    /// Bounds under which every computed tunable fits in 64 bits.
    pub open spec fn wf(self) -> bool {
        &&& self.latency <= 1_000_000
        &&& 1 <= self.nr_latency
        &&& self.wakeup_granularity <= 1_000_000_000
        &&& self.bandwidth_size <= 1_000_000
    }
}

impl Clone for Profile {
    fn clone(&self) -> (r: Self)
        ensures
            r == *self,
    {
        Profile {
            latency: self.latency,
            nr_latency: self.nr_latency,
            wakeup_granularity: self.wakeup_granularity,
            bandwidth_size: self.bandwidth_size,
            preempt: self.preempt.clone(),
        }
    }
}

/// A profile with the built-in battery-saving values.
pub open spec fn is_default_profile(p: Profile) -> bool {
    &&& p.latency == 6
    &&& p.nr_latency == 8
    &&& p.wakeup_granularity == 1000
    &&& p.bandwidth_size == 5
    &&& p.preempt@ == "voluntary"@
}

/// A profile with the built-in responsiveness values.
pub open spec fn is_responsive_profile(p: Profile) -> bool {
    &&& p.latency == 4
    &&& p.nr_latency == 10
    &&& p.wakeup_granularity == 500
    &&& p.bandwidth_size == 3
    &&& p.preempt@ == "full"@
}

/// The default preemption mode.
pub fn preempt_default() -> (r: String)
    ensures
        r@ == "voluntary"@,
{
    let r = String::from_str("voluntary");
    r
}

/// The profile used on battery: longer latencies, voluntary preemption.
pub fn profile_default() -> (r: Profile)
    ensures
        r.wf(),
        is_default_profile(r),
{
    Profile {
        latency: 6,
        nr_latency: 8,
        wakeup_granularity: 1000,
        bandwidth_size: 5,
        preempt: preempt_default(),
    }
}

/// The profile used on wall power: shorter latencies, full preemption.
pub fn profile_responsive() -> (r: Profile)
    ensures
        r.wf(),
        is_responsive_profile(r),
{
    Profile {
        latency: 4,
        nr_latency: 10,
        wakeup_granularity: 500,
        bandwidth_size: 3,
        preempt: String::from_str("full"),
    }
}

/// CFS configuration: whether tuning is enabled, and the named profiles.
#[derive(Debug)]
pub struct Config {
    /// Enables CFS tuning
    pub enable: bool,
    /// Profiles by name
    pub profiles: Vec<(String, Profile)>,
}

impl Config {
    /// Every held profile stays within the computable bounds.
    pub open spec fn wf(self) -> bool {
        forall|i: int| 0 <= i < self.profiles@.len() ==> (#[trigger] self.profiles@[i]).1.wf()
    }

    /// Tuning disabled, with the two built-in profiles present.
    pub fn default() -> (r: Self)
        ensures
            r.wf(),
            !r.enable,
            r.profiles@.len() == 2,
            r.profiles@[0].0@ == "default"@,
            is_default_profile(r.profiles@[0].1),
            r.profiles@[1].0@ == "responsive"@,
            is_responsive_profile(r.profiles@[1].1),
    {
        let mut profiles: Vec<(String, Profile)> = Vec::new();
        profiles.push((String::from_str("default"), profile_default()));
        profiles.push((String::from_str("responsive"), profile_responsive()));
        Config { enable: false, profiles }
    }

    /// Looks a profile up by name.
    pub fn get(&self, name: &str) -> (r: Option<&Profile>)
        ensures
            r matches Some(p) ==> exists|i: int|
                0 <= i < self.profiles@.len() && (#[trigger] self.profiles@[i]).0@ == name@
                    && self.profiles@[i].1 == *p,
            r is None ==> forall|i: int|
                0 <= i < self.profiles@.len() ==> (#[trigger] self.profiles@[i]).0@ != name@,
    {
        let len = self.profiles.len();
        let mut i: usize = 0;
        while i < len
            invariant
                i <= len,
                forall|j: int| 0 <= j < i ==> (#[trigger] self.profiles@[j]).0@ != name@,
            decreases len - i,
        {
            if crate::text::str_eq(self.profiles[i].0.as_str(), name) {
                return Some(&self.profiles[i].1);
            }
            i = i + 1;
        }
        None
    }
}

/// The floor of the base-two logarithm.
pub open spec fn log2_floor(n: nat) -> nat
    decreases n,
{
    if n < 2 {
        0
    } else {
        1 + log2_floor(n / 2)
    }
}

/// Below two to the `k`, the base-two logarithm is below `k`.
pub proof fn lemma_log2_bound(n: nat, k: nat)
    requires
        1 <= k,
        n < vstd::arithmetic::power2::pow2(k),
    ensures
        log2_floor(n) < k,
    decreases k,
{
    vstd::arithmetic::power2::lemma_pow2_unfold(k);
    if n >= 2 {
        if k == 1 {
            vstd::arithmetic::power2::lemma2_to64();
        } else {
            assert(n / 2 < vstd::arithmetic::power2::pow2((k - 1) as nat));
            lemma_log2_bound(n / 2, (k - 1) as nat);
        }
    }
}

/// Latency modifier applied to scheduler latencies: one million times one
/// more than the floor of the base-two logarithm of the CPU count.
pub fn latency_modifier(nprocs: u64) -> (r: u64)
    ensures
        r == 1_000_000 * (1 + log2_floor(nprocs as nat)),
        1_000_000 <= r <= 64_000_000,
{
    let mut v = nprocs;
    let mut e: u64 = 0;
    proof {
        vstd::arithmetic::power2::lemma2_to64_rest();
        lemma_log2_bound(nprocs as nat, 64);
    }
    while v >= 2
        invariant
            log2_floor(nprocs as nat) == e + log2_floor(v as nat),
            e <= log2_floor(nprocs as nat),
        decreases v,
    {
        v = v / 2;
        e = e + 1;
    }
    proof {
        assert(log2_floor(v as nat) == 0);
        assert(e == log2_floor(nprocs as nat));
        assert(e <= 63);
    }
    1_000_000 * (1 + e)
}

/// Where the kernel exposes the scheduler tunables.
#[derive(Debug)]
pub struct SchedPaths {
    /// Preemption latency node
    pub latency: String,
    /// Minimum granularity node
    pub min_gran: String,
    /// Wakeup granularity node
    pub wakeup_gran: String,
    /// Migration cost node
    pub migration_cost: String,
    /// Preemption mode node, where the kernel has one
    pub preempt: Option<String>,
}

/// Why no usable set of scheduler paths could be put together.
#[derive(Clone, Copy, Debug, PartialEq, Eq, Structural)]
pub enum SchedPathsError {
    /// The kernel exposes the tunables neither in debug-fs nor in proc
    NotSupported,
}

impl SchedPathsError {
    /// A short description of the error.
    pub fn message(&self) -> (r: String)
        ensures
            r@ == "kernel does not support tweaking the scheduler"@,
    {
        String::from_str("kernel does not support tweaking the scheduler")
    }
}

impl SchedPaths {
    /// Selects the tunable paths.  The caller reports which trees the
    /// running kernel exposes: debug-fs first, the older proc files as
    /// the fallback, and whether the preemption node exists.
    pub fn new(debugfs: bool, procfs_fallback: bool, preempt: bool) -> (r: Result<
        SchedPaths,
        SchedPathsError,
    >)
        ensures
            (r is Ok) == (debugfs || procfs_fallback),
            r matches Ok(p) ==> {
                &&& debugfs ==> p.latency@ == "/sys/kernel/debug/sched/latency_ns"@
                    && p.min_gran@ == "/sys/kernel/debug/sched/min_granularity_ns"@
                    && p.wakeup_gran@ == "/sys/kernel/debug/sched/wakeup_granularity_ns"@
                    && p.migration_cost@ == "/sys/kernel/debug/sched/migration_cost_ns"@
                &&& !debugfs ==> p.latency@ == "/proc/sys/kernel/sched_latency_ns"@
                    && p.min_gran@ == "/proc/sys/kernel/sched_min_granularity_ns"@
                    && p.wakeup_gran@ == "/proc/sys/kernel/sched_wakeup_granularity_ns"@
                    && p.migration_cost@ == "/proc/sys/kernel/sched_migration_cost_ns"@
                &&& if preempt {
                    p.preempt matches Some(q) && q@ == PREEMPT_PATH@
                } else {
                    p.preempt is None
                }
            },
    {
        if !debugfs && !procfs_fallback {
            return Err(SchedPathsError::NotSupported);
        }
        let preempt_path = if preempt {
            Some(String::from_str(PREEMPT_PATH))
        } else {
            None
        };
        if debugfs {
            Ok(SchedPaths {
                latency: String::from_str("/sys/kernel/debug/sched/latency_ns"),
                min_gran: String::from_str("/sys/kernel/debug/sched/min_granularity_ns"),
                wakeup_gran: String::from_str("/sys/kernel/debug/sched/wakeup_granularity_ns"),
                migration_cost: String::from_str("/sys/kernel/debug/sched/migration_cost_ns"),
                preempt: preempt_path,
            })
        } else {
            Ok(SchedPaths {
                latency: String::from_str("/proc/sys/kernel/sched_latency_ns"),
                min_gran: String::from_str("/proc/sys/kernel/sched_min_granularity_ns"),
                wakeup_gran: String::from_str("/proc/sys/kernel/sched_wakeup_granularity_ns"),
                migration_cost: String::from_str("/proc/sys/kernel/sched_migration_cost_ns"),
                preempt: preempt_path,
            })
        }
    }
}

/// One pending write to a scheduler tunable node.
#[derive(Debug)]
pub struct CfsWrite {
    /// The node to write to
    pub path: String,
    /// A numeric value, when the node takes one
    pub number: Option<u64>,
    /// A textual value, for the preemption node
    pub text: Option<String>,
}

/// Relies on num_cpus::get for the number of logical CPUs, which is at
/// least one.
#[verifier::external_body]
fn cpu_count() -> (n: usize)
    ensures
        1 <= n,
{
    num_cpus::get()
}

/// The writes that apply `conf` on a machine with `nprocs` CPUs: the
/// modifier times the latency, that product split over `nr_latency`, the
/// modified wakeup granularity, the bandwidth slice in microseconds, and
/// the preemption mode where the kernel has the node.
pub open spec fn tweak_values(conf: Profile, nprocs: u64) -> (Seq<u64>) {
    let modifier = 1_000_000 * (1 + log2_floor(nprocs as nat));
    seq![
        (modifier * conf.latency) as u64,
        ((modifier * conf.latency) / conf.nr_latency as int) as u64,
        ((modifier * conf.wakeup_granularity) / 1000) as u64,
        (conf.bandwidth_size * 1000) as u64,
    ]
}

/// Computes the tunable writes for `conf` with an explicit CPU count.
pub fn tweak_with_cpus(paths: &SchedPaths, conf: &Profile, nprocs: u64) -> (r: Vec<CfsWrite>)
    requires
        conf.wf(),
        1 <= nprocs,
    ensures
        ({
            let vals = tweak_values(*conf, nprocs);
            &&& r@.len() == (if paths.preempt is Some {
                5int
            } else {
                4int
            })
            &&& r@[0].path == paths.latency && r@[0].number == Some(vals[0]) && r@[0].text is None
            &&& r@[1].path == paths.min_gran && r@[1].number == Some(vals[1]) && r@[1].text is None
            &&& r@[2].path == paths.wakeup_gran && r@[2].number == Some(vals[2]) && r@[2].text
                is None
            &&& r@[3].path@ == BANDWIDTH_SIZE_PATH@ && r@[3].number == Some(vals[3]) && r@[3].text
                is None
            &&& paths.preempt matches Some(q) ==> r@[4].path == q && r@[4].number is None
                && r@[4].text == Some(conf.preempt)
        }),
    {
        let modifier = latency_modifier(nprocs);
        proof {
            assert(modifier * conf.latency <= 64_000_000 * 1_000_000) by (nonlinear_arith)
                requires
                    modifier <= 64_000_000,
                    conf.latency <= 1_000_000,
            ;
            assert(modifier * conf.wakeup_granularity <= 64_000_000 * 1_000_000_000)
                by (nonlinear_arith)
                requires
                    modifier <= 64_000_000,
                    conf.wakeup_granularity <= 1_000_000_000,
            ;
        }
        let latency_val = modifier * conf.latency;
        let min_gran = latency_val / conf.nr_latency;
        let wakeup_gran = (modifier * conf.wakeup_granularity) / 1000;
        let bandwidth = conf.bandwidth_size * 1000;
        let mut r: Vec<CfsWrite> = Vec::new();
        r.push(CfsWrite { path: paths.latency.clone(), number: Some(latency_val), text: None });
        r.push(CfsWrite { path: paths.min_gran.clone(), number: Some(min_gran), text: None });
        r.push(CfsWrite { path: paths.wakeup_gran.clone(), number: Some(wakeup_gran), text: None });
        r.push(CfsWrite {
            path: String::from_str(BANDWIDTH_SIZE_PATH),
            number: Some(bandwidth),
            text: None,
        });
        match &paths.preempt {
            Some(q) => {
                r.push(CfsWrite { path: q.clone(), number: None, text: Some(conf.preempt.clone()) });
            },
            None => {},
        }
        r
    }

/// Computes the tunable writes for the machine this runs on.  The CPU
/// count comes from the system, so only its lower bound is known; the
/// values are exactly those of `tweak_with_cpus` for that count.
pub fn tweak(paths: &SchedPaths, conf: &Profile) -> (r: Vec<CfsWrite>)
    requires
        conf.wf(),
    ensures
        exists|nprocs: u64|
            1 <= nprocs && #[trigger] spec_tweak_result(*paths, *conf, nprocs, r@),
{
    let n = cpu_count();
    let nprocs: u64 = if n > 0xffff_ffff { 0xffff_ffff } else { n as u64 };
    let r = tweak_with_cpus(paths, conf, nprocs);
    proof {
        assert(spec_tweak_result(*paths, *conf, nprocs, r@));
    }
    r
}

/// The write list that `tweak_with_cpus` produces for this CPU count.
pub open spec fn spec_tweak_result(
    paths: SchedPaths,
    conf: Profile,
    nprocs: u64,
    r: Seq<CfsWrite>,
) -> bool {
    let vals = tweak_values(conf, nprocs);
    &&& r.len() == (if paths.preempt is Some {
        5int
    } else {
        4int
    })
    &&& r[0].path == paths.latency && r[0].number == Some(vals[0]) && r[0].text is None
    &&& r[1].path == paths.min_gran && r[1].number == Some(vals[1]) && r[1].text is None
    &&& r[2].path == paths.wakeup_gran && r[2].number == Some(vals[2]) && r[2].text is None
    &&& r[3].path@ == BANDWIDTH_SIZE_PATH@ && r[3].number == Some(vals[3]) && r[3].text is None
    &&& paths.preempt matches Some(q) ==> r[4].path == q && r[4].number is None && r[4].text
        == Some(conf.preempt)
}

} // verus!
