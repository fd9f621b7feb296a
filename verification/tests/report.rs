use mcpg_cloud::coords::Context;
use mcpg_cloud::deploy::VersionEntry;
use mcpg_cloud::names::InstanceView;
use mcpg_cloud::report::{
    challenge_report, context_report, context_set_report, created_token_report,
    credentials_report, diff_header, domains_report, instances_report, log_line_report,
    logs_report, no_versions_error, operations_report, orgs_report, tokens_report,
    unresolved_name_error, verify_report, versions_report, CreatedToken, DomainCheck, DomainView,
    LogLine, Operation, OrgView, TokenView,
};

#[test]
fn versions_listing() {
    let list = vec![
        VersionEntry { version: 1, content_sha256: "aa".into() },
        VersionEntry { version: 12, content_sha256: "bb".into() },
    ];
    assert_eq!(versions_report("edge", &list), "VERSION   CONTENT-SHA256\n1         aa\n12        bb\n");
    assert_eq!(versions_report("edge", &vec![]), "(no config versions for 'edge')\n");
}

#[test]
fn diff_header_names_both_versions() {
    assert_eq!(diff_header("edge", 1, 2), "--- edge v1 \n+++ edge v2\n");
}

#[test]
fn challenge_is_shown_until_verified() {
    let d = DomainView {
        hostname: "mcp.example.com".into(),
        status: "pending".into(),
        record_name: "_mcpg.mcp.example.com".into(),
        record_value: "tok".into(),
    };
    assert_eq!(
        challenge_report(&d),
        "domain:  mcp.example.com  [pending]\n\nTo verify ownership, create this DNS TXT record:\n\n  name:  _mcpg.mcp.example.com\n  value: tok\n\nThen run: mcpg cloud domains verify --org <org> mcp.example.com\n"
    );
    let v = DomainView { status: "verified".into(), ..d };
    assert_eq!(challenge_report(&v), "domain:  mcp.example.com  [verified]\n");
}

#[test]
fn verify_outcomes() {
    let ok = DomainCheck {
        hostname: "h.example".into(),
        matched: true,
        found: vec![],
        queried: "_mcpg.h.example".into(),
        instructions: None,
    };
    let r = verify_report(&ok);
    assert_eq!(r.text, "\u{2713} h.example is verified \u{2014} publish with --custom-hostname h.example\n");
    assert!(r.failure.is_none());
    let bad = DomainCheck { matched: false, found: vec!["x".into(), "y".into()], instructions: Some("wait".into()), ..ok };
    let r = verify_report(&bad);
    assert_eq!(
        r.text,
        "\u{2717} h.example is NOT verified yet (queried _mcpg.h.example)\n  TXT records found (none matched):\n    x\n    y\n  \u{2192} wait\n"
    );
    assert_eq!(r.failure.as_deref(), Some("domain 'h.example' not verified"));
    let none = DomainCheck { found: vec![], instructions: None, ..bad };
    assert_eq!(
        verify_report(&none).text,
        "\u{2717} h.example is NOT verified yet (queried _mcpg.h.example)\n  no TXT records found at the challenge name\n"
    );
}

#[test]
fn domain_listing() {
    let list = vec![
        DomainView { hostname: "a.example".into(), status: "verified".into(), record_name: "n".into(), record_value: "v".into() },
        DomainView { hostname: "b.example".into(), status: "pending".into(), record_name: "n".into(), record_value: "v".into() },
    ];
    let text = domains_report("acme", &list);
    let lines: Vec<&str> = text.lines().collect();
    assert_eq!(lines[0], format!("{:<42}  {:<10}  CHALLENGE RECORD", "HOSTNAME", "STATUS"));
    assert_eq!(lines[1], format!("{:<42}  {:<10}  ", "a.example", "verified"));
    assert_eq!(lines[2], format!("{:<42}  {:<10}  n TXT v", "b.example", "pending"));
    assert_eq!(
        domains_report("acme", &vec![]),
        "(no custom domains claimed \u{2014} `mcpg cloud domains add --org acme <hostname>`)\n"
    );
}

#[test]
fn created_token_shows_the_secret_once() {
    let t = CreatedToken {
        id: "t1".into(),
        name: "ci".into(),
        token: "mcpgst_abc".into(),
        org_roles: vec!["member".into(), "owner".into()],
        expires_at: None,
    };
    let text = created_token_report(&t);
    assert_eq!(
        text,
        "\u{2713} created service token 'ci' (t1)\n  roles:   member, owner\n  expires: never\n\n  Store this token now \u{2014} it will NOT be shown again:\n\n    mcpgst_abc\n\n  Use it as: Authorization: Bearer mcpgst_abc\n"
    );
}

#[test]
fn token_listing() {
    let list = vec![TokenView {
        id: "t1".into(),
        name: "ci".into(),
        org_roles: vec!["a".into(), "b".into()],
        expires_at: Some("2030-01-01".into()),
        last_used_at: None,
        active: false,
    }];
    let text = tokens_report("acme", &list);
    let expected = format!(
        "{:<38}  {:<16}  {:<8}  {:<20}  {:<20}  ID\n{:<38}  {:<16}  {:<8}  {:<20}  {:<20}  {}\n",
        "NAME", "ROLES", "ACTIVE", "EXPIRES", "LAST USED", "ci", "a,b", "no", "2030-01-01", "never", "t1"
    );
    assert_eq!(text, expected);
    assert_eq!(
        tokens_report("acme", &vec![]),
        "(no service tokens \u{2014} `mcpg cloud service-token create --org acme <name>`)\n"
    );
}

#[test]
fn log_lines() {
    let l = LogLine {
        at: None,
        level: "INFO".into(),
        target: "gw".into(),
        message: "up".into(),
        plugin_id: "p1".into(),
    };
    assert_eq!(log_line_report(&l), "-  INFO   gw [p1]  up\n");
    let l = LogLine { at: Some("2024-01-01T00:00:00+00:00".into()), plugin_id: String::new(), ..l };
    assert_eq!(log_line_report(&l), "2024-01-01T00:00:00+00:00  INFO   gw  up\n");
    assert_eq!(logs_report("edge", &vec![]), "(no recent logs for 'edge' on this control-plane replica)\n");
    assert_eq!(logs_report("edge", &vec![l]), "2024-01-01T00:00:00+00:00  INFO   gw  up\n");
}

#[test]
fn operations_listing() {
    let ops = vec![
        Operation { kind: "publish".into(), final_phase: "READY".into(), error: String::new(), started_at: None },
        Operation { kind: "delete".into(), final_phase: "FAILED".into(), error: "boom".into(), started_at: Some("t".into()) },
    ];
    let expected = format!(
        "{:<16}  {:<12}  {:<24}\n{:<16}  {:<12}  {:<24}\n{:<16}  {:<12}  {:<24}\n    error: boom\n",
        "KIND", "PHASE", "STARTED", "publish", "READY", "?", "delete", "FAILED", "t"
    );
    assert_eq!(operations_report("acme", &ops), expected);
    assert_eq!(operations_report("acme", &vec![]), "(no instances published in org acme yet)\n");
}

#[test]
fn whoami_output() {
    assert_eq!(credentials_report(true), "credentials: id_token present (from `mcpg cloud login`)\n");
    assert!(credentials_report(false).starts_with("credentials: none"));
    let orgs = vec![
        OrgView { slug: "acme".into(), name: "Acme".into(), plan_tier: "pro".into(), status: "active".into() },
        OrgView { slug: "beta".into(), name: "Beta".into(), plan_tier: "team".into(), status: "suspended".into() },
    ];
    let expected = format!(
        "orgs (2 \u{2014} pass the slug as --org):\n  {:<42}  pro  (Acme)\n  {:<42}  team  (Beta)  [suspended]\n",
        "acme", "beta"
    );
    assert_eq!(orgs_report(&orgs), expected);
    assert_eq!(orgs_report(&vec![]), "orgs: none \u{2014} your first publish/login onboards one automatically\n");
}

#[test]
fn instances_listing() {
    let list = vec![InstanceView {
        instance_uid: "uid-a".into(),
        state: "online".into(),
        version: "0.1.0".into(),
        update_available: Some("0.2.0".into()),
        addressable: vec!["https://edge.mcpg.cloud/mcp".into()],
        last_seen_at: Some("2024-05-01T00:00:00+00:00".into()),
    }, InstanceView {
        instance_uid: "uid-b".into(),
        state: "pending".into(),
        version: "0.1.0".into(),
        update_available: None,
        addressable: vec![],
        last_seen_at: None,
    }];
    let expected = format!(
        "{:<38}  {:<10}  {:<18}  ENDPOINT\n{:<38}  {:<10}  {:<18}  {}\n{:<38}  {:<10}  update available \u{2014} `mcpg cloud redeploy <name>` to adopt\n{:<38}  {:<10}  last seen {}\n{:<38}  {:<10}  {:<18}  {}\n",
        "INSTANCE_UID", "STATE", "VERSION",
        "uid-a", "online", "0.1.0 \u{2192} 0.2.0", "https://edge.mcpg.cloud/mcp",
        "", "",
        "", "", "2024-05-01T00:00:00+00:00",
        "uid-b", "pending", "0.1.0", "-"
    );
    assert_eq!(instances_report("acme", &list), expected);
    assert_eq!(
        instances_report("acme", &vec![]),
        "(no instances in org acme \u{2014} `mcpg cloud publish` to create one)\n"
    );
}

#[test]
fn context_display_and_confirmation() {
    let ctx = Context { org: Some("acme".into()), workspace: None, env: Some("prod".into()) };
    assert_eq!(
        context_report("/s/context.json", &ctx),
        "context (/s/context.json):\n  org:       acme\n  workspace: (unset)\n  env:       prod\n"
    );
    assert_eq!(context_set_report(&ctx), "\u{2713} context set: org=acme workspace=(unset) env=prod\n");
}

#[test]
fn error_texts() {
    assert_eq!(no_versions_error("edge"), "'edge' has no published config versions to redeploy");
    let e = mcpg_cloud::names::NameError::Ambiguous { name: "edge".into(), count: 3 };
    assert_eq!(
        unresolved_name_error(&e, "acme"),
        "3 instances match `edge` \u{2014} delete by uid instead (`mcpg cloud instances`) (org acme)"
    );
}

#[test]
fn token_list_depends_on_shown_fields_only() {
    let make = |roles: Vec<String>| TokenView {
        id: "t9".into(),
        name: "deploy".into(),
        org_roles: roles,
        expires_at: None,
        last_used_at: Some("2024-02-02".into()),
        active: true,
    };
    let a = tokens_report("acme", &vec![make(vec!["member".into()])]);
    let b = tokens_report("acme", &vec![make(vec!["member".into()])]);
    assert_eq!(a, b);
    assert!(a.contains("yes"));
    assert_ne!(a, tokens_report("acme", &vec![make(vec!["owner".into()])]));
}
