use gensr::access::Access;
use gensr::account::{account_name, accounts_to_revoke, useradd_arguments, userdel_arguments};
use gensr::acl::{access_permission, str_to_permission, InvalidPermission, UserAcl};
use gensr::caps::{Caps, UnknownCapability};
use gensr::config::{resolve_config_dir, ConfigDirError, DirCandidate};
use gensr::dbus::{find_text, DBusPolicyBuilder, DbusConfigError};
use gensr::polkit::{check_polkit, PolkitDocument, PolkitError, PolkitPolicyWorker};

fn strings(v: &[&str]) -> Vec<String> {
    v.iter().map(|s| s.to_string()).collect()
}

#[test]
fn caps_from_names_and_text() {
    let c = Caps::from_names(&strings(&["CAP_NET_BIND_SERVICE"])).unwrap();
    assert_eq!(c.bits, 1 << 10);
    assert_eq!(c.to_text(), "CAP_NET_BIND_SERVICE");
    let c = Caps::from_names(&strings(&["CAP_SETUID", "CAP_CHOWN", "CAP_CHECKPOINT_RESTORE"])).unwrap();
    assert_eq!(c.to_text(), "CAP_CHOWN,CAP_SETUID,CAP_CHECKPOINT_RESTORE");
    assert_eq!(Caps::from_names(&strings(&["CAP_CHOWN", "CHOWN"])), Err(UnknownCapability));
    assert_eq!(Caps::empty().to_text(), "");
    assert_eq!(Caps::from_mask(u64::MAX).bits, (1u64 << 41) - 1);
}

#[test]
fn permission_strings() {
    assert_eq!(str_to_permission("rW"), Ok(6));
    assert_eq!(str_to_permission("RWX"), Ok(7));
    assert_eq!(str_to_permission(""), Ok(0));
    assert_eq!(str_to_permission("rz"), Err(InvalidPermission));
    assert_eq!(access_permission(Access::read()), 4);
}

#[test]
fn acl_grant_then_revoke_restores() {
    let mut acl = UserAcl::new();
    acl.set(1, 7);
    acl.grant(42, 4);
    assert_eq!(acl.get(42), Some(4));
    acl.grant(42, 2);
    assert_eq!(acl.get(42), Some(6));
    acl.revoke(42);
    assert_eq!(acl.get(42), None);
    assert_eq!(acl.get(1), Some(7));
    assert_eq!(acl.entries, vec![(1, 7)]);
}

#[test]
fn polkit_grant_query_revoke() {
    let mut doc = PolkitDocument::new();
    assert!(!doc.query("rar_a", "org.x"));
    doc.grant("rar_a", &strings(&["org.x"]));
    assert!(doc.query("rar_a", "org.x"));
    assert!(!doc.query("rar_a", "org.y"));
    doc.grant("rar_a", &strings(&["org.y"]));
    assert!(doc.query("rar_a", "org.x") && doc.query("rar_a", "org.y"));
    doc.grant("gsr_b", &strings(&["org.z"]));
    doc.revoke("rar_a");
    assert!(!doc.query("rar_a", "org.x"));
    assert!(doc.query("gsr_b", "org.z"));
    doc.revoke("gsr_b");
    assert!(doc.entries.is_empty());
}

#[test]
fn polkit_check() {
    let mut doc = PolkitDocument::new();
    doc.grant("rar_a", &strings(&["org.x"]));
    assert_eq!(check_polkit(Some(&doc), "rar_a", "org.x"), Ok(()));
    assert_eq!(check_polkit(Some(&doc), "rar_b", "org.x"), Err(PolkitError::PermissionDenied));
    assert_eq!(check_polkit(None, "rar_a", "org.x"), Err(PolkitError::PermissionDenied));
    let w = PolkitPolicyWorker::new("/usr/share/polkit-1");
    assert_eq!(w.get_policy_file_path(), "/usr/share/polkit-1/rules.d/rootasrole.json");
    assert_eq!(w.get_rule_script_path(), "/usr/share/polkit-1/rules.d/rootasrole.js");
    assert!(w.check_policy(Some(&doc), "rar_a", "org.x"));
    assert!(!w.check_policy(None, "rar_a", "org.x"));
}

#[test]
fn dbus_policy_document() {
    let doc = DBusPolicyBuilder::policy_document("rar_a", &strings(&["org.a", "org.b"]));
    let expected = format!(
        "{}<busconfig>\n    <policy user=\"rar_a\">        <allow send_destination=\"org.a\"/>        <allow send_destination=\"org.b\"/>    </policy>\n</busconfig>",
        DBusPolicyBuilder::header()
    );
    assert_eq!(doc, expected);
    assert!(DBusPolicyBuilder::header().starts_with("<?xml version=\"1.0\""));
    assert_eq!(DBusPolicyBuilder::indent(2), "        ");
    assert_eq!(DBusPolicyBuilder::indent(0), "");
}

#[test]
fn dbus_paths_and_include() {
    let b = DBusPolicyBuilder::new("/etc/dbus-1");
    assert_eq!(b.system_config, "/etc/dbus-1/system.conf");
    assert_eq!(b.rootasrole_folder(), "/etc/dbus-1/system.d/rootasrole");
    assert_eq!(b.policy_path("rar_a"), "/etc/dbus-1/system.d/rootasrole/rar_a.conf");
    assert_eq!(DBusPolicyBuilder::new("/x/").system_config, "/x/system.conf");
    let with = "<!-- system bus -->\n<busconfig><includedir>/etc/dbus-1/system.d/rootasrole</includedir></busconfig>";
    assert_eq!(b.build(with), Ok(None));
    let without = "<!-- system bus -->\n<busconfig><includedir>/etc/dbus-1/system.d</includedir></busconfig>";
    let updated = b.build(without).unwrap().unwrap();
    assert!(updated.starts_with("<!-- system bus -->\n<busconfig>"));
    assert_eq!(updated.matches("<includedir>/etc/dbus-1/system.d/rootasrole</includedir>").count(), 1);
    assert!(updated.contains("<includedir>/etc/dbus-1/system.d</includedir>"));
    assert!(!updated.contains("?>"));
    assert_eq!(b.build(&updated), Ok(None));
    assert_eq!(b.build("<config/>"), Err(DbusConfigError::NoBusConfig));
    assert_eq!(b.build("<busconfig><unclosed>"), Err(DbusConfigError::Unparsable));
    assert_eq!(b.enforce(), strings(&["reload", "dbus"]));
}

#[test]
fn config_dir_resolution() {
    let c = |p: &str, d: bool| DirCandidate { path: p.to_string(), is_dir: d };
    assert_eq!(resolve_config_dir(Some(c("/env", true)), c("/a", true), c("/b", true)), Ok("/env".to_string()));
    assert_eq!(resolve_config_dir(Some(c("/env", false)), c("/a", true), c("/b", true)), Err(ConfigDirError::EnvDirMissing));
    assert_eq!(resolve_config_dir(None, c("/a", false), c("/b", true)), Ok("/b".to_string()));
    assert_eq!(resolve_config_dir(None, c("/a", false), c("/b", false)), Err(ConfigDirError::NotFound));
    assert_eq!(DBusPolicyBuilder::find_datadir(None, true, true), Ok("/usr/share/dbus-1".to_string()));
    assert_eq!(DBusPolicyBuilder::find_datadir(None, false, true), Ok("/etc/dbus-1".to_string()));
}

#[test]
fn account_commands() {
    assert_eq!(account_name("web", "deploy"), "web-deploy");
    assert_eq!(useradd_arguments("rar_a"), strings(&["-r", "-M", "-s", "/usr/sbin/nologin", "rar_a"]));
    assert_eq!(userdel_arguments("rar_a"), strings(&["-r", "rar_a"]));
}

#[test]
fn dbus_document_escapes_names() {
    let doc = DBusPolicyBuilder::policy_document("a\"b", &strings(&["x<y&z"]));
    assert!(doc.contains("<policy user=\"a&quot;b\">"));
    assert!(doc.contains("<allow send_destination=\"x&lt;y&amp;z\"/>"));
    assert_eq!(doc.matches("<allow").count(), 1);
}

#[test]
fn text_search() {
    assert_eq!(find_text("ab<busconfig>", "<busconfig>"), Some(2));
    assert_eq!(find_text("abab", "ab"), Some(0));
    assert_eq!(find_text("ab", "abc"), None);
    assert_eq!(find_text("héllo", "llo"), Some(2));
}

#[test]
fn non_ascii_capability_name_is_unknown() {
    assert_eq!(Caps::from_names(&strings(&["a\u{e9}\u{e9}"])), Err(UnknownCapability));
    assert_eq!(Caps::from_names(&strings(&["CAP_\u{e9}"])), Err(UnknownCapability));
}

#[test]
fn capability_names_round_trip() {
    let c = Caps::from_names(&strings(&["cap_net_bind_service", "CAP_BPF"])).unwrap();
    let names = c.names();
    assert_eq!(names, strings(&["CAP_NET_BIND_SERVICE", "CAP_BPF"]));
    assert_eq!(Caps::from_names(&names), Ok(c));
}

#[test]
fn revoked_accounts() {
    assert_eq!(accounts_to_revoke("web", "deploy", None), strings(&["web-deploy"]));
    assert_eq!(accounts_to_revoke("web", "deploy", Some("root")), strings(&["web-deploy"]));
    assert_eq!(accounts_to_revoke("web", "deploy", Some("rar_ab")), strings(&["web-deploy", "rar_ab"]));
}
