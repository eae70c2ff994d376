use vstd::prelude::*;

verus! {

/// Resource pressure applied through a cgroup (v2).
#[derive(Clone, Debug)]
pub struct ResourcePressureConfig {
    /// The cgroup directory whose limits are set.
    pub cgroup_path: String,
    /// The memory limit in bytes, if any.
    pub memory_limit_bytes: Option<u64>,
    /// The CPU quota per period in microseconds, if any.
    pub cpu_quota_us: Option<u64>,
    /// The CPU period in microseconds (100000 when not given).
    pub cpu_period_us: Option<u64>,
}

/// Memory stress run by stress-ng's virtual-memory stressor.
#[derive(Clone, Debug)]
pub struct MemoryStressConfig {
    /// Bytes the stressor keeps mapped.
    pub vm_bytes: u64,
    /// The stress-ng `--vm-method`.
    pub vm_method: String,
}

impl Default for MemoryStressConfig {
    /// 256 MiB exercised by flipping bits, the pattern of radiation pressure.
    fn default() -> (c: Self)
        ensures
            c.vm_bytes == 268_435_456,
            c.vm_method@ == "flip"@,
    {
        MemoryStressConfig { vm_bytes: 268_435_456, vm_method: String::from_str("flip") }
    }
}

} // verus!
