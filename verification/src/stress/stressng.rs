//! The stress-ng backend: CPU and memory stress from `stress-ng` processes,
//! with the Linux backend for everything else. Starting and stopping the
//! processes is left to the caller; their command lines are built here.

use vstd::prelude::*;
use crate::text::{decimal, decimal_string, joined, texts};
use super::config::MemoryStressConfig;

verus! {

/// The arguments of `stress-ng` that load every CPU to `cpu_load` percent.
pub fn cpu_stress_args(cpu_load: u32) -> (args: Vec<String>)
    ensures
        texts(args@) == seq!["--cpu"@, "0"@, "--cpu-load"@, decimal(cpu_load as nat)],
{
    let mut args: Vec<String> = Vec::new();
    args.push(String::from_str("--cpu"));
    args.push(String::from_str("0"));
    args.push(String::from_str("--cpu-load"));
    args.push(decimal_string(cpu_load as u64));
    assert(texts(args@) =~= seq!["--cpu"@, "0"@, "--cpu-load"@, decimal(cpu_load as nat)]);
    args
}

/// The arguments of `stress-ng` that run one virtual-memory stressor over
/// `vm_bytes` bytes with the configured method, keeping the memory mapped.
pub fn memory_stress_args(config: &MemoryStressConfig) -> (args: Vec<String>)
    ensures
        texts(args@) == seq![
            "--vm"@,
            "1"@,
            "--vm-bytes"@,
            decimal(config.vm_bytes as nat),
            "--vm-method"@,
            config.vm_method@,
            "--vm-keep"@,
        ],
{
    let mut args: Vec<String> = Vec::new();
    args.push(String::from_str("--vm"));
    args.push(String::from_str("1"));
    args.push(String::from_str("--vm-bytes"));
    args.push(decimal_string(config.vm_bytes));
    args.push(String::from_str("--vm-method"));
    args.push(String::from_str(config.vm_method.as_str()));
    args.push(String::from_str("--vm-keep"));
    assert(texts(args@) =~= seq![
        "--vm"@,
        "1"@,
        "--vm-bytes"@,
        decimal(config.vm_bytes as nat),
        "--vm-method"@,
        config.vm_method@,
        "--vm-keep"@,
    ]);
    args
}

/// The error given when `stress-ng` cannot be started.
pub fn spawn_error(detail: &str) -> (e: String)
    ensures
        e@ == "stress-ng spawn failed: "@ + detail@,
{
    joined("stress-ng spawn failed: ", detail)
}

/// The backend's name.
pub fn stress_ng_name() -> (s: &'static str)
    ensures
        s@ == "stress-ng"@,
{
    "stress-ng"
}

} // verus!
