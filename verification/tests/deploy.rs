use mcpg_cloud::deploy::{
    newest_version, publish_body, republish_body, token_request, PublishArgs, SizeClass,
    VersionEntry,
};

/// The `--size` value of a deployment command line, validated as the CLI
/// validates it (omitted: the default class).
fn size_of(argv: &[&str]) -> Option<String> {
    match argv.iter().position(|a| *a == "--size") {
        Some(i) => SizeClass::parse(argv[i + 1]).map(|c| c.name()),
        None => Some(SizeClass::default_class().name()),
    }
}

#[test]
fn publish_size_accepts_the_ladder_and_rejects_the_rest() {
    for size in ["s", "m", "l", "xl"] {
        let got = size_of(&["mcpg-cloud", "publish", "edge", "--size", size])
            .unwrap_or_else(|| panic!("--size {size} must parse"));
        assert_eq!(got, size);
    }
    for bad in ["xxl", "S", "medium", ""] {
        assert!(
            size_of(&["mcpg-cloud", "publish", "edge", "--size", bad]).is_none(),
            "--size {bad:?} must be rejected"
        );
    }
    // Omitted → the `s` default.
    assert_eq!(size_of(&["mcpg-cloud", "publish", "edge"]).unwrap(), "s");
}

#[test]
fn rollback_size_mirrors_publish() {
    let got = size_of(&["mcpg-cloud", "rollback", "edge", "--to", "1", "--size", "xl"]).unwrap();
    assert_eq!(got, "xl");
    assert!(size_of(&["mcpg-cloud", "rollback", "edge", "--to", "1", "--size", "huge"]).is_none());
}

#[test]
fn publish_body_carries_the_arguments_and_config() {
    let args = PublishArgs {
        name: "edge".into(),
        image_tag: String::new(),
        replicas: 2,
        region: "eu-west-1".into(),
        isolation_tier: String::new(),
        size: "m".into(),
        custom_hostname: "mcp.example.com".into(),
        config_file: Some("gw.yaml".into()),
    };
    let b = publish_body(args, "[server]\n".into());
    assert_eq!(b.name, "edge");
    assert_eq!(b.replicas, 2);
    assert_eq!(b.region, "eu-west-1");
    assert_eq!(b.size, "m");
    assert_eq!(b.custom_hostname, "mcp.example.com");
    assert_eq!(b.config_toml, "[server]\n");
}

#[test]
fn republish_drops_the_custom_hostname() {
    let b = republish_body("edge", "1.2".into(), 1, String::new(), "shared".into(), "s".into(), "cfg".into());
    assert_eq!(b.name, "edge");
    assert_eq!(b.image_tag, "1.2");
    assert_eq!(b.isolation_tier, "shared");
    assert_eq!(b.custom_hostname, "");
    assert_eq!(b.config_toml, "cfg");
}

#[test]
fn redeploy_picks_the_newest_version() {
    let v = |n: i64| VersionEntry { version: n, content_sha256: format!("h{n}") };
    assert_eq!(newest_version(&vec![v(2), v(7), v(3)]), Some(7));
    assert_eq!(newest_version(&vec![v(-4)]), Some(-4));
    assert_eq!(newest_version(&vec![]), None);
}

#[test]
fn token_roles_are_sent_only_when_given() {
    let t = token_request("ci-deploy", vec![], 90);
    assert_eq!(t.name, "ci-deploy");
    assert_eq!(t.expires_days, 90);
    assert!(t.roles.is_none());
    let t = token_request("ci", vec!["owner".into(), "member".into()], 0);
    assert_eq!(t.roles.unwrap(), vec!["owner".to_string(), "member".to_string()]);
    assert_eq!(t.expires_days, 0);
}
