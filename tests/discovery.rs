use gensr::access::Access;
use gensr::caps::Caps;
use gensr::discovery::{Discovery, Outcome};
use gensr::policy::Policy;
use gensr::prober::{ProbeError, Prober};

fn reported(caps: &[&str], files: &[(&str, Access)]) -> Policy {
    let mut p = Policy::empty();
    p.capabilities = caps.iter().map(|c| c.to_string()).collect();
    p.files = files.iter().map(|(f, a)| (f.to_string(), *a)).collect();
    p
}

fn prober(fail_then_add: bool) -> Prober {
    Prober::new(
        Some("/usr/bin/capable".to_string()),
        None,
        vec!["server".to_string(), "--port".to_string(), "80".to_string()],
        fail_then_add,
        Caps::from_mask(u64::MAX),
        "/tmp/trace.json".to_string(),
    )
    .unwrap()
}

#[test]
fn converges_within_two_probes() {
    let mut prober = prober(true);
    let mut d = Discovery::new();
    let need = || reported(&["CAP_NET_BIND_SERVICE"], &[("/etc/app.conf", Access::read())]);
    assert_eq!(prober.arguments()[1], "");

    // first probe: no capability, the command fails
    assert!(!d.should_escalate());
    let p1 = prober.finish_run(false, String::new(), String::new(), Some(need()), 1000, &vec![1000]).unwrap();
    let step = d.observe(true, p1);
    assert_eq!(step.outcome, Outcome::Probe);
    assert!(step.enforce);
    assert!(step.revoke.is_none());
    prober.add_cap_names(&d.current.capabilities).unwrap();
    assert!(prober.caps.has(10));
    assert_eq!(prober.arguments()[1], "CAP_NET_BIND_SERVICE");

    // second probe: escalated after the failure, the capability is there, the
    // command succeeds
    assert!(d.should_escalate());
    let p2 = prober.finish_run(true, String::new(), String::new(), Some(need()), 0, &vec![0]).unwrap();
    let step = d.observe(false, p2);
    assert_eq!(step.outcome, Outcome::Converged);
    assert!(!step.enforce);
    assert!(step.revoke.is_some());
    assert!(d.done);
    let mut expected = need();
    expected.stamp_credentials(0, &vec![0]);
    assert!(d.current.same_as(&expected));
    assert_eq!(d.current.capabilities, vec!["CAP_NET_BIND_SERVICE".to_string()]);
    assert_eq!(d.current.files, vec![("/etc/app.conf".to_string(), Access::read())]);
}

#[test]
fn always_failing_command_does_not_converge() {
    let mut prober = prober(true);
    let mut d = Discovery::new();
    let need = || reported(&["CAP_SYS_ADMIN"], &[]);
    let mut probes = 0;
    let mut escalated = false;
    let outcome = loop {
        if d.should_escalate() {
            escalated = true;
        }
        probes += 1;
        let uid = if escalated { 0 } else { 1000 };
        let p = prober.finish_run(false, String::new(), String::new(), Some(need()), uid, &vec![uid]).unwrap();
        let step = d.observe(true, p);
        if step.outcome != Outcome::Probe {
            assert!(step.revoke.is_some());
            break step.outcome;
        }
        assert!(probes < 10);
    };
    assert_eq!(outcome, Outcome::DidNotConverge);
    assert!(escalated);
    assert_eq!(probes, 2);
}

#[test]
fn always_failing_with_changing_reports_does_not_converge() {
    let mut d = Discovery::new();
    let s1 = d.observe(true, reported(&["CAP_CHOWN"], &[]));
    assert_eq!(s1.outcome, Outcome::Probe);
    assert!(d.should_escalate());
    let s2 = d.observe(true, reported(&["CAP_CHOWN", "CAP_KILL"], &[]));
    assert_eq!(s2.outcome, Outcome::DidNotConverge);
    assert!(s2.revoke.is_some());
    assert!(!s2.enforce);
}

#[test]
fn success_with_changed_report_goes_on() {
    let mut d = Discovery::new();
    let s1 = d.observe(true, reported(&["CAP_CHOWN"], &[]));
    assert_eq!(s1.outcome, Outcome::Probe);
    let s2 = d.observe(true, reported(&["CAP_CHOWN"], &[]));
    assert_eq!(s2.outcome, Outcome::DidNotConverge);

    let mut d = Discovery::new();
    let s1 = d.observe(false, reported(&["CAP_CHOWN"], &[]));
    assert_eq!(s1.outcome, Outcome::Probe);
    assert!(!s1.enforce);
    assert!(!d.should_escalate());
    let s2 = d.observe(false, reported(&["CAP_CHOWN", "CAP_KILL"], &[]));
    assert_eq!(s2.outcome, Outcome::Probe);
    assert_eq!(d.stable_count, 0);
    let s3 = d.observe(true, reported(&["CAP_CHOWN", "CAP_KILL"], &[]));
    assert_eq!(s3.outcome, Outcome::Probe);
    assert!(s3.enforce);
    assert_eq!(d.stable_count, 1);
    assert!(d.should_escalate());
    let s4 = d.observe(false, reported(&["CAP_CHOWN", "CAP_KILL"], &[]));
    assert_eq!(s4.outcome, Outcome::Converged);
}

#[test]
fn prober_needs_a_tracer() {
    let r = Prober::new(None, None, vec![], true, Caps::empty(), "/tmp/x".to_string());
    assert_eq!(r.unwrap_err(), ProbeError::ToolNotFound);
    let p = Prober::new(None, Some("/usr/bin/capable".to_string()), vec![], false, Caps::from_mask(0b101), "/tmp/x".to_string()).unwrap();
    assert_eq!(p.path, "/usr/bin/capable");
    assert_eq!(p.caps.bits, 0b101);
    assert!(!p.has_ran());
    assert!(!p.is_failed());
}

#[test]
fn prober_arguments() {
    let mut p = prober(true);
    p.add_cap_names(&vec!["CAP_NET_RAW".to_string(), "cap_chown".to_string()]).unwrap();
    assert_eq!(
        p.arguments(),
        vec!["-c", "CAP_CHOWN,CAP_NET_RAW", "-l", "error", "-o", "/tmp/trace.json", "server", "--port", "80"]
    );
    assert_eq!(p.previous_caps.bits, 0);
}

#[test]
fn prober_refuses_capabilities_outside_bounding_set() {
    let mut p = Prober::new(Some("c".to_string()), None, vec![], true, Caps::from_mask(1 << 10), "/tmp/x".to_string()).unwrap();
    assert_eq!(p.add_caps(Caps::from_mask(1 << 12)), Err(ProbeError::CapabilityBoundingViolation));
    assert_eq!(p.caps.bits, 0);
    assert_eq!(p.add_cap_names(&vec!["CAP_NOPE".to_string()]), Err(ProbeError::UnknownCapability));
    assert_eq!(p.add_caps(Caps::from_mask(1 << 10)), Ok(()));
    assert_eq!(p.caps.bits, 1 << 10);
}

#[test]
fn prober_invalid_trace_output() {
    let mut p = prober(false);
    let r = p.finish_run(true, "out".to_string(), "err".to_string(), None, 0, &vec![]);
    assert_eq!(r.unwrap_err(), ProbeError::TraceOutputInvalid);
    assert!(!p.has_ran());
    assert_eq!(p.last_stdout, "out");
    let r = p.finish_run(false, String::new(), String::new(), Some(Policy::empty()), 7, &vec![8]).unwrap();
    assert!(p.has_ran());
    assert!(p.is_failed());
    assert_eq!(r.setuid, Some(7));
    assert_eq!(r.setgid, Some(vec![8]));
}
