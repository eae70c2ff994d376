# stress_ref

Verified core of the STRESS (System Threat Resilience & Extreme Stress Suite)
reference implementation.

- `src/` is the verified library: the decisions behind the behavioral proxies
  and the Stress Resilience Index (which proxies are usable, when the SRI is
  N/A or zero, the order and step counts of a degradation curve, which
  smoothness formula applies), the structure of run aggregation (present and
  N/A values, critical-value regime, median positions, flagged runs), a
  stable ordering by keys, and the stress backends' plans (tc and stress-ng
  command lines, cgroup writes, Toxiproxy addresses and recorded toxics).
- `app/` holds what works on floats (means, logarithms, the t quantile from
  `statrs`), the serde types, and the processes, files and HTTP calls
  (`ureq`, `serde_json`) that carry the plans out.
- `tests/` exercises the library.

Floats are compared by the library through integer keys computed in
`app/float_order.rs`. That these keys order floats as `partial_cmp` does
(with -0.0 equal to 0.0) rests on that unverified code, not on a proof.
