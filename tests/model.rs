use gensr::access::{Access, AccessParseError};
use gensr::policy::{Authentication, Policy};

fn s(x: &str) -> String {
    x.to_string()
}

fn policy(caps: &[&str], files: &[(&str, Access)], dbus: &[&str]) -> Policy {
    let mut p = Policy::empty();
    p.capabilities = caps.iter().map(|c| s(c)).collect();
    p.files = files.iter().map(|(f, a)| (s(f), *a)).collect();
    p.dbus = dbus.iter().map(|d| s(d)).collect();
    p
}

fn file_access(p: &Policy, path: &str) -> Option<u8> {
    p.files.iter().find(|(f, _)| f == path).map(|(_, a)| a.bits)
}

#[test]
fn access_parses_letters() {
    assert_eq!(Access::from_text("R"), Ok(Access { bits: 4 }));
    assert_eq!(Access::from_text("RX"), Ok(Access { bits: 5 }));
    assert_eq!(Access::from_text("XWR"), Ok(Access { bits: 7 }));
    assert_eq!(Access::from_text(""), Ok(Access { bits: 0 }));
}

#[test]
fn access_rejects_other_characters() {
    assert_eq!(Access::from_text("r"), Err(AccessParseError));
    assert_eq!(Access::from_text("RWZ"), Err(AccessParseError));
}

#[test]
fn access_text_in_fixed_order() {
    assert_eq!(Access { bits: 7 }.to_text(), "RWX");
    assert_eq!(Access { bits: 5 }.to_text(), "RX");
    assert_eq!(Access { bits: 2 }.to_text(), "W");
    assert_eq!(Access::empty().to_text(), "");
    for bits in 0..8u8 {
        let a = Access { bits };
        assert_eq!(Access::from_text(&a.to_text()), Ok(a));
    }
}

#[test]
fn access_union_idempotent_and_superset() {
    for x in 0..8u8 {
        let a = Access { bits: x };
        assert_eq!(a.union(a), a);
        for y in 0..8u8 {
            let b = Access { bits: y };
            let u = a.union(b);
            assert!(u.contains(a));
            assert!(u.contains(b));
        }
    }
    assert_eq!(Access::read().union(Access::write()).to_text(), "RW");
}

#[test]
fn merge_joins_files_per_path() {
    let a = policy(&["CAP_CHOWN"], &[("/etc/a", Access::read()), ("/etc/b", Access::execute())], &["org.a"]);
    let b = policy(&["CAP_KILL"], &[("/etc/a", Access::write()), ("/etc/c", Access::read())], &["org.b"]);
    let m = a.merge(b);
    assert_eq!(m.capabilities, vec![s("CAP_CHOWN"), s("CAP_KILL")]);
    assert_eq!(m.dbus, vec![s("org.a"), s("org.b")]);
    assert_eq!(file_access(&m, "/etc/a"), Some(6));
    assert_eq!(file_access(&m, "/etc/b"), Some(1));
    assert_eq!(file_access(&m, "/etc/c"), Some(4));
    assert_eq!(m.files.len(), 3);
}

#[test]
fn merge_commutes_up_to_order() {
    let mk_a = || policy(&["CAP_CHOWN"], &[("/x", Access::read())], &["org.a"]);
    let mk_b = || policy(&["CAP_KILL", "CAP_CHOWN"], &[("/x", Access::execute()), ("/y", Access::write())], &["org.b"]);
    let ab = mk_a().merge(mk_b());
    let ba = mk_b().merge(mk_a());
    let mut c1 = ab.capabilities.clone();
    let mut c2 = ba.capabilities.clone();
    c1.sort();
    c1.dedup();
    c2.sort();
    c2.dedup();
    assert_eq!(c1, c2);
    let mut d1 = ab.dbus.clone();
    let mut d2 = ba.dbus.clone();
    d1.sort();
    d2.sort();
    assert_eq!(d1, d2);
    assert_eq!(file_access(&ab, "/x"), file_access(&ba, "/x"));
    assert_eq!(file_access(&ab, "/y"), file_access(&ba, "/y"));
    assert_eq!(file_access(&ab, "/x"), Some(5));
}

#[test]
fn merge_is_associative() {
    let a = || policy(&["CAP_CHOWN"], &[("/x", Access::read())], &["org.a"]);
    let b = || policy(&["CAP_KILL"], &[("/x", Access::write())], &["org.b"]);
    let c = || policy(&["CAP_BPF"], &[("/x", Access::execute()), ("/z", Access::read())], &["org.c"]);
    let l = a().merge(b()).merge(c());
    let r = a().merge(b().merge(c()));
    assert!(l.same_as(&r));
    assert_eq!(file_access(&l, "/x"), Some(7));
}

#[test]
fn merge_identity_first_wins_and_env_right_wins() {
    let mut a = Policy::empty();
    a.setuid = Some(5);
    a.env_vars = vec![(s("PATH"), s("/bin")), (s("HOME"), s("/root"))];
    let mut b = Policy::empty();
    b.setuid = Some(7);
    b.setgid = Some(vec![7, 8]);
    b.env_vars = vec![(s("PATH"), s("/usr/bin"))];
    b.password_prompt = Authentication::Skip;
    let m = a.merge(b);
    assert_eq!(m.setuid, Some(5));
    assert_eq!(m.setgid, Some(vec![7, 8]));
    assert_eq!(m.password_prompt, Authentication::Perform);
    let path = m.env_vars.iter().find(|(k, _)| k == "PATH").map(|(_, v)| v.clone());
    assert_eq!(path, Some(s("/usr/bin")));
    assert_eq!(m.env_vars.len(), 2);
}

#[test]
fn merge_assign_identity_first_non_empty() {
    let mut a = policy(&["CAP_CHOWN"], &[("/x", Access::read())], &[]);
    a.setuid = Some(1);
    let mut b = policy(&["CAP_KILL"], &[("/x", Access::write())], &["org.b"]);
    b.setuid = Some(2);
    b.env_vars = vec![(s("A"), s("1"))];
    a.merge_assign(b);
    assert_eq!(a.setuid, Some(1));
    let mut c = Policy::empty();
    let mut d = Policy::empty();
    d.setuid = Some(9);
    d.setgid = Some(vec![9]);
    c.merge_assign(d);
    assert_eq!(c.setuid, Some(9));
    assert_eq!(c.setgid, Some(vec![9]));
    assert!(a.env_vars.is_empty());
    assert_eq!(a.capabilities, vec![s("CAP_CHOWN"), s("CAP_KILL")]);
    assert_eq!(file_access(&a, "/x"), Some(6));
    assert_eq!(a.dbus, vec![s("org.b")]);
}

#[test]
fn same_as_ignores_file_order() {
    let a = policy(&[], &[("/x", Access::read()), ("/y", Access::write())], &[]);
    let b = policy(&[], &[("/y", Access::write()), ("/x", Access::read())], &[]);
    let c = policy(&[], &[("/y", Access::write()), ("/x", Access::execute())], &[]);
    assert!(a.same_as(&b));
    assert!(!a.same_as(&c));
    assert!(Policy::default().same_as(&Policy::empty()));
    assert!(!Policy::empty().same_as(&policy(&["CAP_KILL"], &[], &[])));
}

#[test]
fn default_policy_is_empty() {
    let p = Policy::default();
    assert!(p.capabilities.is_empty() && p.files.is_empty() && p.dbus.is_empty());
    assert_eq!(p.setuid, None);
    assert_eq!(p.password_prompt, Authentication::Perform);
}

#[test]
fn stamp_credentials_sets_identity() {
    let mut p = Policy::empty();
    p.stamp_credentials(1000, &vec![1000, 27]);
    assert_eq!(p.setuid, Some(1000));
    assert_eq!(p.setgid, Some(vec![1000, 27]));
}

#[test]
fn policy_file_views() {
    let p = policy(&[], &[("/etc/app.conf", Access::read()), ("/bin/x", Access { bits: 5 })], &[]);
    let grants = p.acl_grants();
    assert_eq!(grants, vec![(s("/etc/app.conf"), 4), (s("/bin/x"), 5)]);
    let text = p.files_text();
    assert_eq!(text, vec![(s("/etc/app.conf"), s("R")), (s("/bin/x"), s("RX"))]);
}

#[test]
fn same_requirements_ignores_identity() {
    let mut a = policy(&["CAP_KILL"], &[("/x", Access::read())], &["org.a"]);
    let mut b = policy(&["CAP_KILL"], &[("/x", Access::read())], &["org.a"]);
    a.stamp_credentials(1000, &vec![1000]);
    b.stamp_credentials(0, &vec![0]);
    assert!(a.same_requirements_as(&b));
    assert!(!a.same_as(&b));
    let c = policy(&["CAP_KILL"], &[("/x", Access::write())], &["org.a"]);
    assert!(!a.same_requirements_as(&c));
}
