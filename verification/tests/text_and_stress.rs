use stress_ref::stress::config::{MemoryStressConfig, ResourcePressureConfig};
use stress_ref::stress::linux::{
    netem_add_args, qdisc_delete_args, qdisc_delete_outcome, netem_add_outcome,
    resource_pressure_writes, resource_release_writes, tc_launch_error, write_error,
    LinuxBackend,
};
use stress_ref::stress::simulated::SimulatedBackend;
use stress_ref::stress::stressng::{cpu_stress_args, memory_stress_args, spawn_error, stress_ng_name};
use stress_ref::stress::toxiproxy::ToxiproxyBackend;
use stress_ref::text::{contains_text, debug_list_string, decimal_string, trim_end_char};

fn pairs(writes: &[stress_ref::stress::linux::FileWrite]) -> Vec<(String, String)> {
    writes.iter().map(|w| (w.path.clone(), w.contents.clone())).collect()
}

#[test]
fn decimal_text() {
    assert_eq!(decimal_string(0), "0");
    assert_eq!(decimal_string(7), "7");
    assert_eq!(decimal_string(10), "10");
    assert_eq!(decimal_string(268_435_456), "268435456");
    assert_eq!(decimal_string(u64::MAX), u64::MAX.to_string());
}

#[test]
fn debug_lists() {
    assert_eq!(debug_list_string(&vec![]), "[]");
    assert_eq!(debug_list_string(&vec!["gds"]), "[\"gds\"]");
    assert_eq!(debug_list_string(&vec!["gds", "cfr"]), "[\"gds\", \"cfr\"]");
}

#[test]
fn text_search() {
    assert!(contains_text("RTNETLINK answers: No such file or directory", "No such file"));
    assert!(!contains_text("RTNETLINK answers: Operation not permitted", "No such file"));
    assert!(contains_text("abc", ""));
    assert!(contains_text("abc", "bc"));
    assert!(!contains_text("ab", "abc"));
}

#[test]
fn trailing_slashes_trimmed() {
    assert_eq!(trim_end_char("http://localhost:8474///", '/'), "http://localhost:8474");
    assert_eq!(trim_end_char("///", '/'), "");
    assert_eq!(trim_end_char("a/b", '/'), "a/b");
}

#[test]
fn memory_stress_default() {
    let c = MemoryStressConfig::default();
    assert_eq!(c.vm_bytes, 268_435_456);
    assert_eq!(c.vm_method, "flip");
}

#[test]
fn resource_pressure_plan() {
    let c = ResourcePressureConfig {
        cgroup_path: "/sys/fs/cgroup/w".to_string(),
        memory_limit_bytes: Some(1024),
        cpu_quota_us: Some(50_000),
        cpu_period_us: None,
    };
    assert_eq!(
        pairs(&resource_pressure_writes(&c)),
        vec![
            ("/sys/fs/cgroup/w/memory.max".to_string(), "1024".to_string()),
            ("/sys/fs/cgroup/w/cpu.max".to_string(), "50000 100000".to_string()),
        ]
    );
    let c = ResourcePressureConfig {
        cgroup_path: "/cg".to_string(),
        memory_limit_bytes: None,
        cpu_quota_us: Some(20_000),
        cpu_period_us: Some(40_000),
    };
    assert_eq!(
        pairs(&resource_pressure_writes(&c)),
        vec![("/cg/cpu.max".to_string(), "20000 40000".to_string())]
    );
    let c = ResourcePressureConfig {
        cgroup_path: "/cg".to_string(),
        memory_limit_bytes: None,
        cpu_quota_us: None,
        cpu_period_us: Some(40_000),
    };
    assert!(resource_pressure_writes(&c).is_empty());
}

#[test]
fn resource_release_plan() {
    assert_eq!(
        pairs(&resource_release_writes("/cg")),
        vec![
            ("/cg/memory.max".to_string(), "max".to_string()),
            ("/cg/cpu.max".to_string(), "max 100000".to_string()),
        ]
    );
}

#[test]
fn tc_arguments() {
    assert_eq!(qdisc_delete_args("eth0"), vec!["qdisc", "del", "dev", "eth0", "root"]);
    assert_eq!(
        netem_add_args("eth0", "100", "10.5", "0.1"),
        vec![
            "qdisc", "add", "dev", "eth0", "root", "netem", "delay", "100ms", "10.5ms", "loss",
            "0.1%"
        ]
    );
}

#[test]
fn tc_outcomes() {
    assert_eq!(netem_add_outcome(true, "ignored"), Ok(()));
    assert_eq!(
        netem_add_outcome(false, "Error: bad"),
        Err("tc qdisc add failed: Error: bad".to_string())
    );
    assert_eq!(qdisc_delete_outcome(true, ""), Ok(()));
    assert_eq!(
        qdisc_delete_outcome(false, "RTNETLINK answers: No such file or directory"),
        Ok(())
    );
    assert_eq!(
        qdisc_delete_outcome(false, "RTNETLINK answers: Operation not permitted"),
        Err("tc qdisc del failed: RTNETLINK answers: Operation not permitted".to_string())
    );
    assert_eq!(tc_launch_error("not found"), "tc command failed: not found");
    assert_eq!(write_error("/cg/cpu.max", "denied"), "failed to write /cg/cpu.max: denied");
}

#[test]
fn backend_names() {
    assert_eq!(LinuxBackend::new().name(), "linux-tc-cgroups");
    assert_eq!(SimulatedBackend::new().name(), "simulated");
    assert_eq!(stress_ng_name(), "stress-ng");
}

#[test]
fn stress_ng_arguments() {
    assert_eq!(cpu_stress_args(75), vec!["--cpu", "0", "--cpu-load", "75"]);
    assert_eq!(
        memory_stress_args(&MemoryStressConfig::default()),
        vec!["--vm", "1", "--vm-bytes", "268435456", "--vm-method", "flip", "--vm-keep"]
    );
    assert_eq!(spawn_error("no such binary"), "stress-ng spawn failed: no such binary");
}

#[test]
fn toxiproxy_addresses() {
    let b = ToxiproxyBackend::new("http://localhost:8474/", "svc");
    assert_eq!(b.api_url(), "http://localhost:8474");
    assert_eq!(b.proxy_name(), "svc");
    assert!(b.toxic_names().is_empty());
    assert_eq!(b.proxy_path(), "/proxies/svc");
    assert_eq!(b.toxics_path(), "/proxies/svc/toxics");
    assert_eq!(b.toxic_path("stress_latency"), "/proxies/svc/toxics/stress_latency");
    assert_eq!(b.url("/proxies/svc"), "http://localhost:8474/proxies/svc");
}

#[test]
fn toxiproxy_degradation_leaves_one_toxic() {
    let mut b = ToxiproxyBackend::new("http://h", "p");
    for _ in 0..3 {
        let _removed = b.take_toxics();
        b.record_toxic(ToxiproxyBackend::latency_toxic_name());
    }
    assert_eq!(b.toxic_names(), &vec!["stress_latency".to_string()]);
    let removed = b.take_toxics();
    assert_eq!(removed, vec!["stress_latency".to_string()]);
    assert!(b.toxic_names().is_empty());
    assert_eq!(
        ToxiproxyBackend::network_only_error(),
        "ToxiproxyBackend only handles network faults"
    );
}

#[test]
fn toxiproxy_removal_paths() {
    let mut b = ToxiproxyBackend::new("http://h/", "db");
    b.record_toxic("a".to_string());
    b.record_toxic("stress_latency".to_string());
    assert_eq!(
        b.take_toxic_paths(),
        vec!["/proxies/db/toxics/a".to_string(), "/proxies/db/toxics/stress_latency".to_string()]
    );
    assert!(b.toxic_names().is_empty());
    assert!(b.take_toxic_paths().is_empty());
    assert_eq!(ToxiproxyBackend::api_error("refused"), "Toxiproxy API error: refused");
    assert_eq!(ToxiproxyBackend::json_error("eof"), "JSON parse error: eof");
    assert_eq!(b.name(), "toxiproxy");
}
