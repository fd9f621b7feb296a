use mcpg_cloud::coords::{merge_context, resolve_coord, resolve_coords, resolve_org, Context};

fn empty_context() -> Context {
    Context { org: None, workspace: None, env: None }
}

#[test]
fn coordinate_precedence_flag_then_context_then_error() {
    let ctx = Context {
        org: Some("ctx-org".into()),
        workspace: None,
        env: Some("ctx-env".into()),
    };
    // Flag wins over context.
    assert_eq!(resolve_org(Some("flag-org".into()), &ctx).ok().unwrap(), "flag-org");
    // Context fills an absent flag.
    assert_eq!(resolve_org(None, &ctx).ok().unwrap(), "ctx-org");
    // Nothing anywhere → error that teaches all three sources.
    let msg = match resolve_coords(None, None, None, &empty_context()) {
        Err(e) => e.message(),
        Ok(_) => panic!("expected an error"),
    };
    assert!(
        msg.contains("--org") && msg.contains("MCPG_ORG") && msg.contains("use"),
        "{msg}"
    );
    // Partial context: org resolves, workspace errors.
    let err = match resolve_coords(None, None, None, &ctx) {
        Err(e) => e.message(),
        Ok(_) => panic!("expected an error"),
    };
    assert!(err.contains("workspace"), "{err}");
}

#[test]
fn missing_coordinate_message_is_exact() {
    let e = match resolve_coord(None, None, "environment", "env", "MCPG_ENV") {
        Err(e) => e,
        Ok(_) => panic!("expected an error"),
    };
    assert_eq!(
        e.message(),
        "no environment given \u{2014} pass --env, set MCPG_ENV, or store a default with `mcpg cloud use --env <value>`"
    );
}

#[test]
fn all_coordinates_resolve_from_flags_and_context() {
    let ctx = Context {
        org: Some("o".into()),
        workspace: Some("w".into()),
        env: Some("e".into()),
    };
    let c = resolve_coords(None, Some("ws-flag".into()), None, &ctx).ok().unwrap();
    assert_eq!(c.org, "o");
    assert_eq!(c.workspace, "ws-flag");
    assert_eq!(c.env, "e");
    let e = match resolve_coords(Some("o".into()), Some("w".into()), None, &empty_context()) {
        Err(e) => e,
        Ok(_) => panic!("expected an error"),
    };
    assert_eq!(e.name, "environment");
    assert_eq!(e.flag_name, "env");
    assert_eq!(e.env_name, "MCPG_ENV");
}

#[test]
fn use_keeps_stored_values_it_is_not_given() {
    let stored = Context {
        org: Some("old-org".into()),
        workspace: Some("old-ws".into()),
        env: None,
    };
    let next = merge_context(Some("new-org".into()), None, Some("prod".into()), stored);
    assert_eq!(next.org.as_deref(), Some("new-org"));
    assert_eq!(next.workspace.as_deref(), Some("old-ws"));
    assert_eq!(next.env.as_deref(), Some("prod"));
    // What `use` stored is what a later command without flags resolves to.
    assert_eq!(resolve_org(None, &next).ok().unwrap(), "new-org");
}
