use mcpg_cloud::api::{
    delete_request, domain_add_request, domain_list_request, domain_remove_request,
    domain_verify_request, instances_request, logs_request, operations_request, orgs_request,
    publish_request, redeploy_request, rollback_request, token_create_request, token_list_request,
    token_revoke_request, version_request, versions_base, versions_request, Method,
};

const CP: &str = "http://127.0.0.1:7843";

#[test]
fn versions_base_is_under_the_gateway() {
    assert_eq!(
        versions_base(CP, "acme", "default", "prod", "edge"),
        "http://127.0.0.1:7843/v1/orgs/acme/workspaces/default/environments/prod/gateways/edge/config-versions"
    );
}

#[test]
fn publish_and_delete_targets() {
    let r = publish_request(CP, "acme", "default", "prod", "edge");
    assert!(matches!(r.method, Method::Post));
    assert_eq!(r.url, "http://127.0.0.1:7843/v1/orgs/acme/workspaces/default/environments/prod/gateways");
    assert_eq!(r.context, "publish 'edge'");
    assert_eq!(r.notice.as_deref(), Some("publishing 'edge' \u{2026}"));
    let r = delete_request(CP, "acme", "ws", "env", "0190a6e2-4b1c-7def-8a3b-2c4d5e6f7a8b");
    assert!(matches!(r.method, Method::Delete));
    assert_eq!(
        r.url,
        "http://127.0.0.1:7843/v1/orgs/acme/workspaces/ws/environments/env/gateways/0190a6e2-4b1c-7def-8a3b-2c4d5e6f7a8b"
    );
    assert_eq!(r.context, "delete 0190a6e2-4b1c-7def-8a3b-2c4d5e6f7a8b");
}

#[test]
fn version_requests_carry_the_number() {
    let r = version_request(CP, "o", "w", "e", "edge", 12);
    assert_eq!(r.url, "http://127.0.0.1:7843/v1/orgs/o/workspaces/w/environments/e/gateways/edge/config-versions/12");
    assert_eq!(r.context, "version 'edge@12'");
    let r = version_request(CP, "o", "w", "e", "edge", -3);
    assert!(r.url.ends_with("/config-versions/-3"));
    let r = version_request(CP, "o", "w", "e", "edge", i64::MIN);
    assert!(r.url.ends_with("/config-versions/-9223372036854775808"));
    let r = versions_request(CP, "o", "w", "e", "edge");
    assert_eq!(r.context, "versions 'edge'");
    assert!(r.notice.is_none());
}

#[test]
fn rollback_and_redeploy_notices() {
    let r = rollback_request(CP, "o", "w", "e", "edge", 4);
    assert!(matches!(r.method, Method::Post));
    assert_eq!(r.context, "rollback 'edge'");
    assert_eq!(r.notice.as_deref(), Some("rolling 'edge' back to config version 4 \u{2026}"));
    let r = redeploy_request(CP, "o", "w", "e", "edge");
    assert_eq!(r.context, "redeploy 'edge'");
    assert_eq!(r.notice.as_deref(), Some("redeploying 'edge' at the platform's current release \u{2026}"));
}

#[test]
fn logs_follow_adds_the_query() {
    let r = logs_request(CP, "o", "w", "e", "edge", false);
    assert_eq!(r.url, "http://127.0.0.1:7843/v1/orgs/o/workspaces/w/environments/e/gateways/edge/logs");
    let r = logs_request(CP, "o", "w", "e", "edge", true);
    assert_eq!(r.url, "http://127.0.0.1:7843/v1/orgs/o/workspaces/w/environments/e/gateways/edge/logs?follow=true");
    assert_eq!(r.context, "logs 'edge'");
}

#[test]
fn domain_and_token_targets() {
    assert_eq!(domain_add_request(CP, "acme", "mcp.example.com").url, "http://127.0.0.1:7843/v1/orgs/acme/domains");
    let r = domain_verify_request(CP, "acme", "mcp.example.com");
    assert_eq!(r.url, "http://127.0.0.1:7843/v1/orgs/acme/domains/mcp.example.com/verify");
    assert_eq!(r.context, "verify domain 'mcp.example.com'");
    assert_eq!(domain_list_request(CP, "acme").context, "list domains");
    let r = domain_remove_request(CP, "acme", "mcp.example.com");
    assert!(matches!(r.method, Method::Delete));
    assert_eq!(r.notice.as_deref(), Some("\u{2713} released mcp.example.com"));
    assert_eq!(token_create_request(CP, "acme", "ci").context, "create service token 'ci'");
    assert_eq!(token_list_request(CP, "acme").url, "http://127.0.0.1:7843/v1/orgs/acme/service-tokens");
    let r = token_revoke_request(CP, "acme", "t1");
    assert_eq!(r.url, "http://127.0.0.1:7843/v1/orgs/acme/service-tokens/t1");
    assert_eq!(r.notice.as_deref(), Some("\u{2713} revoked service token t1"));
    assert_eq!(operations_request(CP, "acme").url, "http://127.0.0.1:7843/v1/orgs/acme/operations");
    assert_eq!(orgs_request(CP).url, "http://127.0.0.1:7843/v1/orgs");
    assert_eq!(instances_request(CP, "acme").context, "instances");
}
