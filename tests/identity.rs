use gensr::identity::{identity_for_command, identity_for_task, is_derived_identity};

#[test]
fn task_identity_is_prefixed_digest() {
    // SHA-224 of "ab", 0xff, "c"
    assert_eq!(
        identity_for_task("ab", "c"),
        "rar_28049e90abce3c2388bc545de9b220c0d21e917ea82c4d83ac9b26f8"
    );
    // SHA-224 of "a", 0xff, "bc"
    assert_eq!(
        identity_for_task("a", "bc"),
        "rar_80fc27e88af2227dbc12851eed14a33fcd122f69abc0c04757055833"
    );
}

#[test]
fn command_identity_is_prefixed_digest() {
    // SHA-224 of the empty input
    assert_eq!(
        identity_for_command(&vec![]),
        "gsr_d14a028c2a3a2bc9476102bb288234c415a2b01f828ea62ac5b3e42f"
    );
    // SHA-224 of "a", 0xff, "bc", 0xff
    assert_eq!(
        identity_for_command(&vec!["a".to_string(), "bc".to_string()]),
        "gsr_533758149ffaba725c296f28164ef2ed6132a8f645585e6730a2761b"
    );
    // SHA-224 of "abc", 0xff
    assert_eq!(
        identity_for_command(&vec!["abc".to_string()]),
        "gsr_6834d8e82519d4e8e509a9300e178880aba1289c23f6a71d02771efe"
    );
}

#[test]
fn identities_are_deterministic_and_distinct() {
    let a = identity_for_task("site.yml", "install nginx");
    let b = identity_for_task("site.yml", "install nginx");
    let c = identity_for_task("site.yml", "install apache");
    assert_eq!(a, b);
    assert_ne!(a, c);
    assert_eq!(a.len(), 4 + 56);
    assert_eq!(a, "rar_516ed25c4eef3ae05f8151cc2a8bd7a9aa273bfa190bea8d249ac184");
    let cmd = identity_for_command(&vec!["site.yml".to_string(), "install nginx".to_string()]);
    assert_eq!(cmd, "gsr_b49e43270b6fa49a071f8a2e2d62816edf33b0bb783976ac76303642");
    assert_ne!(a, cmd);
}

#[test]
fn derived_identity_prefixes() {
    assert!(is_derived_identity("rar_00"));
    assert!(is_derived_identity("gsr_"));
    assert!(!is_derived_identity("gar_00"));
    assert!(!is_derived_identity("rsr_00"));
    assert!(!is_derived_identity("rar"));
    assert!(!is_derived_identity("admin-task"));
    assert!(is_derived_identity(&identity_for_task("p", "t")));
}
