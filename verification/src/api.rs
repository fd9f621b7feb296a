//! The control-plane calls each command makes: method, URL, the label its
//! errors carry, and the notice printed once the call was accepted.

use vstd::prelude::*;
use crate::text::{i64_text, signed_decimal};

verus! {

pub enum Method {
    Get,
    Post,
    Delete,
}

/// One control-plane call.
pub struct Request {
    pub method: Method,
    pub url: String,
    /// What failed, for the error shown when the control plane refuses.
    pub context: String,
    /// Printed once the control plane accepted the call.
    pub notice: Option<String>,
}

/// `<cp>/v1/orgs/<org>`
pub open spec fn org_url(cp: Seq<char>, org: Seq<char>) -> Seq<char> {
    cp + "/v1/orgs/"@ + org
}

/// `<cp>/v1/orgs/<org>/workspaces/<ws>/environments/<env>/gateways`
pub open spec fn gateways_url(cp: Seq<char>, org: Seq<char>, ws: Seq<char>, env: Seq<char>) -> Seq<char> {
    org_url(cp, org) + "/workspaces/"@ + ws + "/environments/"@ + env + "/gateways"@
}

/// `.../gateways/<name>/config-versions`
pub open spec fn versions_url(
    cp: Seq<char>,
    org: Seq<char>,
    ws: Seq<char>,
    env: Seq<char>,
    name: Seq<char>,
) -> Seq<char> {
    gateways_url(cp, org, ws, env) + "/"@ + name + "/config-versions"@
}

/// `name` in single quotes.
pub open spec fn quoted(name: Seq<char>) -> Seq<char> {
    "'"@ + name + "'"@
}

fn get(url: String, context: String) -> (r: Request)
    ensures
        r.method == Method::Get,
        r.url == url,
        r.context == context,
        r.notice is None,
{
    Request { method: Method::Get, url, context, notice: None }
}

fn text2(a: &str, b: &str) -> (r: String)
    ensures
        r@ == a@ + b@,
{
    let mut s = a.to_owned();
    s.append(b);
    s
}

fn text3(a: &str, b: &str, c: &str) -> (r: String)
    ensures
        r@ == a@ + b@ + c@,
{
    let mut s = a.to_owned();
    s.append(b);
    s.append(c);
    s
}

fn quote(name: &str) -> (r: String)
    ensures
        r@ == quoted(name@),
{
    text3("'", name, "'")
}

fn org_base(cp_url: &str, org: &str) -> (r: String)
    ensures
        r@ == org_url(cp_url@, org@),
{
    text3(cp_url, "/v1/orgs/", org)
}

fn gateways_base(cp_url: &str, org: &str, ws: &str, env: &str) -> (r: String)
    ensures
        r@ == gateways_url(cp_url@, org@, ws@, env@),
{
    let mut s = org_base(cp_url, org);
    s.append("/workspaces/");
    s.append(ws);
    s.append("/environments/");
    s.append(env);
    s.append("/gateways");
    s
}

/// Base URL of an instance's config versions.
pub fn versions_base(cp_url: &str, org: &str, ws: &str, env: &str, name: &str) -> (r: String)
    ensures
        r@ == versions_url(cp_url@, org@, ws@, env@, name@),
{
    let mut s = gateways_base(cp_url, org, ws, env);
    s.append("/");
    s.append(name);
    s.append("/config-versions");
    s
}

/// Publish (create or update in place) the named instance.
pub fn publish_request(cp_url: &str, org: &str, ws: &str, env: &str, name: &str) -> (r: Request)
    ensures
        r.method == Method::Post,
        r.url@ == gateways_url(cp_url@, org@, ws@, env@),
        r.context@ == "publish "@ + quoted(name@),
        r.notice matches Some(n) && n@ == "publishing "@ + quoted(name@) + " \u{2026}"@,
{
    let q = quote(name);
    Request {
        method: Method::Post,
        url: gateways_base(cp_url, org, ws, env),
        context: text2("publish ", q.as_str()),
        notice: Some(text2("publishing ", q.as_str()).concat(" \u{2026}")),
    }
}

/// Tear down an instance by uid.
pub fn delete_request(cp_url: &str, org: &str, ws: &str, env: &str, instance_uid: &str) -> (r: Request)
    ensures
        r.method == Method::Delete,
        r.url@ == gateways_url(cp_url@, org@, ws@, env@) + "/"@ + instance_uid@,
        r.context@ == "delete "@ + instance_uid@,
        r.notice matches Some(n) && n@ == "deleting "@ + instance_uid@ + " \u{2026}"@,
{
    let mut url = gateways_base(cp_url, org, ws, env);
    url.append("/");
    url.append(instance_uid);
    Request {
        method: Method::Delete,
        url,
        context: text2("delete ", instance_uid),
        notice: Some(text3("deleting ", instance_uid, " \u{2026}")),
    }
}

/// List an instance's config versions.
pub fn versions_request(cp_url: &str, org: &str, ws: &str, env: &str, name: &str) -> (r: Request)
    ensures
        r.method == Method::Get,
        r.url@ == versions_url(cp_url@, org@, ws@, env@, name@),
        r.context@ == "versions "@ + quoted(name@),
        r.notice is None,
{
    get(versions_base(cp_url, org, ws, env, name), text2("versions ", quote(name).as_str()))
}

/// Fetch one config version with its raw text.
pub fn version_request(
    cp_url: &str,
    org: &str,
    ws: &str,
    env: &str,
    name: &str,
    version: i64,
) -> (r: Request)
    ensures
        r.method == Method::Get,
        r.url@ == versions_url(cp_url@, org@, ws@, env@, name@) + "/"@ + signed_decimal(
            version as int,
        ),
        r.context@ == "version '"@ + name@ + "@"@ + signed_decimal(version as int) + "'"@,
        r.notice is None,
{
    let v = i64_text(version);
    let mut url = versions_base(cp_url, org, ws, env, name);
    url.append("/");
    url.append(v.as_str());
    let mut context = text3("version '", name, "@");
    context.append(v.as_str());
    context.append("'");
    get(url, context)
}

/// Re-publish a prior config version in place.
pub fn rollback_request(
    cp_url: &str,
    org: &str,
    ws: &str,
    env: &str,
    name: &str,
    to: i64,
) -> (r: Request)
    ensures
        r.method == Method::Post,
        r.url@ == gateways_url(cp_url@, org@, ws@, env@),
        r.context@ == "rollback "@ + quoted(name@),
        r.notice matches Some(n) && n@ == "rolling "@ + quoted(name@) + " back to config version "@
            + signed_decimal(to as int) + " \u{2026}"@,
{
    let q = quote(name);
    let mut notice = text3("rolling ", q.as_str(), " back to config version ");
    notice.append(i64_text(to).as_str());
    notice.append(" \u{2026}");
    Request {
        method: Method::Post,
        url: gateways_base(cp_url, org, ws, env),
        context: text2("rollback ", q.as_str()),
        notice: Some(notice),
    }
}

/// Re-publish the newest config version in place.
pub fn redeploy_request(cp_url: &str, org: &str, ws: &str, env: &str, name: &str) -> (r: Request)
    ensures
        r.method == Method::Post,
        r.url@ == gateways_url(cp_url@, org@, ws@, env@),
        r.context@ == "redeploy "@ + quoted(name@),
        r.notice matches Some(n) && n@ == "redeploying "@ + quoted(name@)
            + " at the platform's current release \u{2026}"@,
{
    let q = quote(name);
    Request {
        method: Method::Post,
        url: gateways_base(cp_url, org, ws, env),
        context: text2("redeploy ", q.as_str()),
        notice: Some(text3("redeploying ", q.as_str(), " at the platform's current release \u{2026}")),
    }
}

/// An instance's logs: a tail snapshot, or a live stream with `follow`.
pub fn logs_request(
    cp_url: &str,
    org: &str,
    ws: &str,
    env: &str,
    name: &str,
    follow: bool,
) -> (r: Request)
    ensures
        r.method == Method::Get,
        r.url@ == gateways_url(cp_url@, org@, ws@, env@) + "/"@ + name@ + "/logs"@ + if follow {
            "?follow=true"@
        } else {
            seq![]
        },
        r.context@ == "logs "@ + quoted(name@),
        r.notice is None,
{
    let mut url = gateways_base(cp_url, org, ws, env);
    url.append("/");
    url.append(name);
    url.append("/logs");
    if follow {
        url.append("?follow=true");
    } else {
        assert(url@ + seq![] == url@);
    }
    get(url, text2("logs ", quote(name).as_str()))
}

/// Claim a hostname for the org.
pub fn domain_add_request(cp_url: &str, org: &str, hostname: &str) -> (r: Request)
    ensures
        r.method == Method::Post,
        r.url@ == org_url(cp_url@, org@) + "/domains"@,
        r.context@ == "claim domain "@ + quoted(hostname@),
        r.notice is None,
{
    Request {
        method: Method::Post,
        url: org_base(cp_url, org).concat("/domains"),
        context: text2("claim domain ", quote(hostname).as_str()),
        notice: None,
    }
}

/// Run the DNS TXT check of a claimed hostname.
pub fn domain_verify_request(cp_url: &str, org: &str, hostname: &str) -> (r: Request)
    ensures
        r.method == Method::Post,
        r.url@ == org_url(cp_url@, org@) + "/domains/"@ + hostname@ + "/verify"@,
        r.context@ == "verify domain "@ + quoted(hostname@),
        r.notice is None,
{
    let mut url = org_base(cp_url, org);
    url.append("/domains/");
    url.append(hostname);
    url.append("/verify");
    Request {
        method: Method::Post,
        url,
        context: text2("verify domain ", quote(hostname).as_str()),
        notice: None,
    }
}

/// List the org's domain claims.
pub fn domain_list_request(cp_url: &str, org: &str) -> (r: Request)
    ensures
        r.method == Method::Get,
        r.url@ == org_url(cp_url@, org@) + "/domains"@,
        r.context@ == "list domains"@,
        r.notice is None,
{
    get(org_base(cp_url, org).concat("/domains"), "list domains".to_owned())
}

/// Release a domain claim.
pub fn domain_remove_request(cp_url: &str, org: &str, hostname: &str) -> (r: Request)
    ensures
        r.method == Method::Delete,
        r.url@ == org_url(cp_url@, org@) + "/domains/"@ + hostname@,
        r.context@ == "remove domain "@ + quoted(hostname@),
        r.notice matches Some(n) && n@ == "\u{2713} released "@ + hostname@,
{
    let mut url = org_base(cp_url, org);
    url.append("/domains/");
    url.append(hostname);
    Request {
        method: Method::Delete,
        url,
        context: text2("remove domain ", quote(hostname).as_str()),
        notice: Some(text2("\u{2713} released ", hostname)),
    }
}

/// Mint a service token.
pub fn token_create_request(cp_url: &str, org: &str, name: &str) -> (r: Request)
    ensures
        r.method == Method::Post,
        r.url@ == org_url(cp_url@, org@) + "/service-tokens"@,
        r.context@ == "create service token "@ + quoted(name@),
        r.notice is None,
{
    Request {
        method: Method::Post,
        url: org_base(cp_url, org).concat("/service-tokens"),
        context: text2("create service token ", quote(name).as_str()),
        notice: None,
    }
}

/// List the org's service tokens.
pub fn token_list_request(cp_url: &str, org: &str) -> (r: Request)
    ensures
        r.method == Method::Get,
        r.url@ == org_url(cp_url@, org@) + "/service-tokens"@,
        r.context@ == "list service tokens"@,
        r.notice is None,
{
    get(org_base(cp_url, org).concat("/service-tokens"), "list service tokens".to_owned())
}

/// Revoke a service token by id.
pub fn token_revoke_request(cp_url: &str, org: &str, id: &str) -> (r: Request)
    ensures
        r.method == Method::Delete,
        r.url@ == org_url(cp_url@, org@) + "/service-tokens/"@ + id@,
        r.context@ == "revoke service token "@ + quoted(id@),
        r.notice matches Some(n) && n@ == "\u{2713} revoked service token "@ + id@,
{
    let mut url = org_base(cp_url, org);
    url.append("/service-tokens/");
    url.append(id);
    Request {
        method: Method::Delete,
        url,
        context: text2("revoke service token ", quote(id).as_str()),
        notice: Some(text2("\u{2713} revoked service token ", id)),
    }
}

/// The org's recent provisioning operations.
pub fn operations_request(cp_url: &str, org: &str) -> (r: Request)
    ensures
        r.method == Method::Get,
        r.url@ == org_url(cp_url@, org@) + "/operations"@,
        r.context@ == "list"@,
        r.notice is None,
{
    get(org_base(cp_url, org).concat("/operations"), "list".to_owned())
}

/// The orgs the current login can act on.
pub fn orgs_request(cp_url: &str) -> (r: Request)
    ensures
        r.method == Method::Get,
        r.url@ == cp_url@ + "/v1/orgs"@,
        r.context@ == "whoami"@,
        r.notice is None,
{
    get(text2(cp_url, "/v1/orgs"), "whoami".to_owned())
}

/// The org's running instances.
pub fn instances_request(cp_url: &str, org: &str) -> (r: Request)
    ensures
        r.method == Method::Get,
        r.url@ == org_url(cp_url@, org@) + "/instances"@,
        r.context@ == "instances"@,
        r.notice is None,
{
    get(org_base(cp_url, org).concat("/instances"), "instances".to_owned())
}

} // verus!
