use mcpg_cloud::names::{match_name, InstanceView, NameError};
use mcpg_cloud::target::{delete_target, DeleteTarget};

fn iv(uid: &str, eps: &[&str]) -> InstanceView {
    InstanceView {
        instance_uid: uid.into(),
        state: "online".into(),
        version: "0.1.0-beta.23".into(),
        update_available: None,
        addressable: eps.iter().map(|s| s.to_string()).collect(),
        last_seen_at: None,
    }
}

#[test]
fn matches_exactly_one_by_endpoint_host_label() {
    let list = vec![
        iv("uid-a", &["https://edge-one.mcpg.cloud/mcp"]),
        iv("uid-b", &["https://edge-two.mcpg.cloud/mcp"]),
    ];
    assert_eq!(match_name(&list, "edge-one").ok().unwrap(), "uid-a");
    // `edge` must NOT prefix-match `edge-one` (label boundary is the dot).
    assert!(match_name(&list, "edge").is_err());
}

#[test]
fn unaddressable_instances_resolve_to_a_helpful_error() {
    let list = vec![iv("uid-a", &[])];
    let e = match match_name(&list, "edge-one") {
        Err(e) => e.message(),
        Ok(_) => panic!("expected an error"),
    };
    assert!(e.contains("never reached READY"), "{e}");
}

#[test]
fn several_matches_are_ambiguous() {
    let list = vec![
        iv("uid-a", &["https://edge.mcpg.cloud/mcp"]),
        iv("uid-b", &["not a url", "https://edge.other.zone/mcp"]),
        iv("uid-c", &["https://other.mcpg.cloud/mcp"]),
    ];
    match match_name(&list, "edge") {
        Err(NameError::Ambiguous { count, .. }) => assert_eq!(count, 2),
        _ => panic!("expected an ambiguity"),
    }
    let e = match_name(&list, "edge").err().unwrap();
    assert_eq!(
        e.message(),
        "2 instances match `edge` \u{2014} delete by uid instead (`mcpg cloud instances`)"
    );
}

#[test]
fn the_name_must_be_in_the_host_not_the_path() {
    // The text `edge.` appears in the path but not at the start of the host.
    let list = vec![iv("uid-a", &["https://gw.mcpg.cloud/edge.mcp"])];
    match match_name(&list, "edge") {
        Err(NameError::NotFound { name }) => assert_eq!(name, "edge"),
        _ => panic!("expected not found"),
    }
    let list = vec![iv("uid-z", &["edge.mcpg.cloud"])];
    // Not a URL: no host, so no match.
    assert!(match_name(&list, "edge").is_err());
}

#[test]
fn delete_target_discrimination_uuid_vs_name() {
    // The exact rule `Delete` applies: uids are UUIDs, names are DNS
    // slugs (which can never parse as a UUID).
    assert!(matches!(
        delete_target("0190a6e2-4b1c-7def-8a3b-2c4d5e6f7a8b".to_string()),
        DeleteTarget::Uid(u) if u == "0190a6e2-4b1c-7def-8a3b-2c4d5e6f7a8b"
    ));
    assert!(matches!(delete_target("edge-cloud".to_string()), DeleteTarget::Name(n) if n == "edge-cloud"));
    assert!(matches!(delete_target("edge-0190a6e2".to_string()), DeleteTarget::Name(_)));
}

#[test]
fn every_uuid_form_is_a_uid() {
    for uid in [
        "67e5504410b1426f9247bb680e5fe0c8",
        "F9168C5E-CEB2-4faa-B6BF-329BF39FA1E4",
        "{6d93bade-bd9f-4e13-8914-9474e1e3567b}",
        "URN:uuid:67e55044-10b1-426f-9247-bb680e5fe0c8",
    ] {
        assert!(matches!(delete_target(uid.to_string()), DeleteTarget::Uid(_)), "{uid}");
    }
    for name in ["67e55044_10b1-426f-9247-bb680e5fe0c8", "urx:uuid:67e55044-10b1-426f-9247-bb680e5fe0c8", "g7e5504410b1426f9247bb680e5fe0c8", ""] {
        assert!(matches!(delete_target(name.to_string()), DeleteTarget::Name(_)), "{name}");
    }
}

#[test]
fn only_the_start_of_the_host_is_compared() {
    let list = vec![iv("uid-a", &["https://edge-one.mcpg.cloud/mcp"])];
    let e = match_name(&list, "mcpg").err().unwrap();
    assert!(matches!(e, NameError::NotFound { .. }));
    assert!(e.message().starts_with("no instance named `mcpg` found"));
}
