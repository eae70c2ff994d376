//! The Linux backend: network degradation through `tc`/netem and resource
//! pressure through cgroups v2. Running `tc` and writing the cgroup files is
//! left to the caller; what to run, what to write, and what an outcome means
//! are decided here.

use vstd::prelude::*;
use crate::text::{contains_text, failure_text, decimal, decimal_string, joined, occurs_in, texts};
use super::config::ResourcePressureConfig;

verus! {

/// Stress injection on Linux through `tc`/netem and cgroups v2.
pub struct LinuxBackend;

impl LinuxBackend {
    pub fn new() -> (b: Self) {
        LinuxBackend
    }

    /// The backend's name.
    pub fn name(&self) -> (s: &'static str)
        ensures
            s@ == "linux-tc-cgroups"@,
    {
        "linux-tc-cgroups"
    }
}

/// One file write: `contents` goes to the file at `path`.
#[derive(Clone, Debug)]
pub struct FileWrite {
    pub path: String,
    pub contents: String,
}

/// A file write as texts.
pub open spec fn write_view(w: FileWrite) -> (Seq<char>, Seq<char>) {
    (w.path@, w.contents@)
}

/// The cgroup file that holds the memory limit.
pub open spec fn memory_max_path(cgroup: Seq<char>) -> Seq<char> {
    cgroup + "/memory.max"@
}

/// The cgroup file that holds the CPU quota and period.
pub open spec fn cpu_max_path(cgroup: Seq<char>) -> Seq<char> {
    cgroup + "/cpu.max"@
}

/// The writes that apply a resource pressure configuration, in order: the
/// memory limit if one is given, then the CPU quota if one is given, with its
/// period or 100000 microseconds.
pub open spec fn pressure_writes(c: ResourcePressureConfig) -> Seq<(Seq<char>, Seq<char>)> {
    let memory = match c.memory_limit_bytes {
        Some(limit) => seq![(memory_max_path(c.cgroup_path@), decimal(limit as nat))],
        None => Seq::empty(),
    };
    let cpu = match c.cpu_quota_us {
        Some(quota) => {
            let period = match c.cpu_period_us {
                Some(p) => p,
                None => 100_000u64,
            };
            seq![(cpu_max_path(c.cgroup_path@), decimal(quota as nat) + " "@ + decimal(period as nat))]
        },
        None => Seq::empty(),
    };
    memory + cpu
}

/// Law: a memory limit is always written first, to `memory.max`, whatever
/// the CPU settings; a CPU write to `cpu.max` follows exactly when a quota is
/// given, with the period or 100000; nothing else is written.
pub proof fn lemma_pressure_writes_shape(c: ResourcePressureConfig)
    ensures
        pressure_writes(c).len() == (if c.memory_limit_bytes is Some {
            1int
        } else {
            0int
        }) + (if c.cpu_quota_us is Some {
            1int
        } else {
            0int
        }),
        c.memory_limit_bytes matches Some(limit) ==> pressure_writes(c)[0] == (
            c.cgroup_path@ + "/memory.max"@,
            decimal(limit as nat),
        ),
        c.cpu_quota_us matches Some(quota) ==> pressure_writes(c).last() == (
            c.cgroup_path@ + "/cpu.max"@,
            decimal(quota as nat) + " "@ + decimal(
                (if c.cpu_period_us is Some {
                    c.cpu_period_us->0
                } else {
                    100_000u64
                }) as nat,
            ),
        ),
{
}

/// The file writes that apply `config`. Writing stops at the first failure.
pub fn resource_pressure_writes(config: &ResourcePressureConfig) -> (writes: Vec<FileWrite>)
    ensures
        writes@.map_values(|w: FileWrite| write_view(w)) == pressure_writes(*config),
        writes@.len() == (if config.memory_limit_bytes is Some {
            1int
        } else {
            0int
        }) + (if config.cpu_quota_us is Some {
            1int
        } else {
            0int
        }),
        config.memory_limit_bytes matches Some(limit) ==> {
            &&& writes@[0].path@ == config.cgroup_path@ + "/memory.max"@
            &&& writes@[0].contents@ == decimal(limit as nat)
        },
        config.cpu_quota_us matches Some(quota) ==> {
            &&& writes@.last().path@ == config.cgroup_path@ + "/cpu.max"@
            &&& writes@.last().contents@ == decimal(quota as nat) + " "@ + decimal(
                (if config.cpu_period_us is Some {
                    config.cpu_period_us->0
                } else {
                    100_000u64
                }) as nat,
            )
        },
{
    let mut writes: Vec<FileWrite> = Vec::new();
    if let Some(limit) = config.memory_limit_bytes {
        let path = joined(config.cgroup_path.as_str(), "/memory.max");
        let contents = decimal_string(limit);
        writes.push(FileWrite { path, contents });
    }
    if let Some(quota) = config.cpu_quota_us {
        let period = match config.cpu_period_us {
            Some(p) => p,
            None => 100_000u64,
        };
        let path = joined(config.cgroup_path.as_str(), "/cpu.max");
        let mut contents = decimal_string(quota);
        contents.append(" ");
        let period_text = decimal_string(period);
        contents.append(period_text.as_str());
        writes.push(FileWrite { path, contents });
    }
    assert(writes@.map_values(|w: FileWrite| write_view(w)) =~= pressure_writes(*config));
    proof {
        lemma_pressure_writes_shape(*config);
        let views = writes@.map_values(|w: FileWrite| write_view(w));
        if writes@.len() > 0 {
            assert(views[0] == write_view(writes@[0]));
            assert(views[writes@.len() - 1] == write_view(writes@.last()));
        }
    }
    writes
}

/// The writes that lift the limits of a cgroup: no memory limit, and an
/// unlimited CPU quota over a 100000 microsecond period.
pub open spec fn release_writes(cgroup: Seq<char>) -> Seq<(Seq<char>, Seq<char>)> {
    seq![(memory_max_path(cgroup), "max"@), (cpu_max_path(cgroup), "max 100000"@)]
}

/// The file writes that remove the resource pressure from a cgroup. Failures
/// of these writes are ignored.
pub fn resource_release_writes(cgroup_path: &str) -> (writes: Vec<FileWrite>)
    ensures
        writes@.map_values(|w: FileWrite| write_view(w)) == release_writes(cgroup_path@),
{
    let mut writes: Vec<FileWrite> = Vec::new();
    writes.push(
        FileWrite {
            path: joined(cgroup_path, "/memory.max"),
            contents: String::from_str("max"),
        },
    );
    writes.push(
        FileWrite { path: joined(cgroup_path, "/cpu.max"), contents: String::from_str("max 100000") },
    );
    assert(writes@.map_values(|w: FileWrite| write_view(w)) =~= release_writes(cgroup_path@));
    writes
}

/// The error given when a cgroup file cannot be written.
pub fn write_error(path: &str, detail: &str) -> (e: String)
    ensures
        e@ == "failed to write "@ + path@ + ": "@ + detail@,
{
    let mut e = String::from_str("failed to write ");
    e.append(path);
    e.append(": ");
    e.append(detail);
    e
}

/// The arguments of `tc` that remove the root queueing discipline of an
/// interface.
pub fn qdisc_delete_args(interface: &str) -> (args: Vec<String>)
    ensures
        texts(args@) == seq!["qdisc"@, "del"@, "dev"@, interface@, "root"@],
{
    let mut args: Vec<String> = Vec::new();
    args.push(String::from_str("qdisc"));
    args.push(String::from_str("del"));
    args.push(String::from_str("dev"));
    args.push(String::from_str(interface));
    args.push(String::from_str("root"));
    assert(texts(args@) =~= seq!["qdisc"@, "del"@, "dev"@, interface@, "root"@]);
    args
}

/// The arguments of `tc` that add a netem root discipline delaying by
/// `latency` milliseconds with `jitter` milliseconds of jitter and dropping
/// `loss` percent of packets; the three numbers are given as text.
pub fn netem_add_args(interface: &str, latency: &str, jitter: &str, loss: &str) -> (args: Vec<
    String,
>)
    ensures
        texts(args@) == seq![
            "qdisc"@,
            "add"@,
            "dev"@,
            interface@,
            "root"@,
            "netem"@,
            "delay"@,
            latency@ + "ms"@,
            jitter@ + "ms"@,
            "loss"@,
            loss@ + "%"@,
        ],
{
    let mut args: Vec<String> = Vec::new();
    args.push(String::from_str("qdisc"));
    args.push(String::from_str("add"));
    args.push(String::from_str("dev"));
    args.push(String::from_str(interface));
    args.push(String::from_str("root"));
    args.push(String::from_str("netem"));
    args.push(String::from_str("delay"));
    args.push(joined(latency, "ms"));
    args.push(joined(jitter, "ms"));
    args.push(String::from_str("loss"));
    args.push(joined(loss, "%"));
    assert(texts(args@) =~= seq![
        "qdisc"@,
        "add"@,
        "dev"@,
        interface@,
        "root"@,
        "netem"@,
        "delay"@,
        latency@ + "ms"@,
        jitter@ + "ms"@,
        "loss"@,
        loss@ + "%"@,
    ]);
    args
}

/// The error given when `tc` cannot be started.
pub fn tc_launch_error(detail: &str) -> (e: String)
    ensures
        e@ == "tc command failed: "@ + detail@,
{
    joined("tc command failed: ", detail)
}

/// What adding the netem discipline came to, given whether `tc` succeeded
/// and what it wrote to standard error.
pub fn netem_add_outcome(succeeded: bool, stderr: &str) -> (r: Result<(), String>)
    ensures
        failure_text(r) == if succeeded {
            None
        } else {
            Some("tc qdisc add failed: "@ + stderr@)
        },
{
    if succeeded {
        Ok(())
    } else {
        Err(joined("tc qdisc add failed: ", stderr))
    }
}

/// What removing the root discipline came to: a failure only counts when
/// `tc` did not merely report that there was no discipline to remove
/// ("No such file").
pub fn qdisc_delete_outcome(succeeded: bool, stderr: &str) -> (r: Result<(), String>)
    ensures
        failure_text(r) == if succeeded || occurs_in(stderr@, "No such file"@) {
            None
        } else {
            Some("tc qdisc del failed: "@ + stderr@)
        },
{
    if succeeded {
        return Ok(());
    }
    if contains_text(stderr, "No such file") {
        Ok(())
    } else {
        Err(joined("tc qdisc del failed: ", stderr))
    }
}

} // verus!
