//! Org / workspace / environment resolution: an explicit value (flag or its
//! environment variable) wins, then the stored `use` context, else an error
//! that names every source a value could come from.

use vstd::prelude::*;

verus! {

/// The defaults stored by `mcpg cloud use`.
pub struct Context {
    pub org: Option<String>,
    pub workspace: Option<String>,
    pub env: Option<String>,
}

/// Fully resolved deployment coordinates.
pub struct Coords {
    pub org: String,
    pub workspace: String,
    pub env: String,
}

/// No value for a coordinate was found anywhere.
pub struct MissingCoord {
    /// Human name of the coordinate ("org", "workspace", "environment").
    pub name: String,
    /// Flag spelling without the leading dashes ("org", "workspace", "env").
    pub flag_name: String,
    /// Environment variable that feeds the flag.
    pub env_name: String,
}

/// The value a coordinate resolves to: the explicit one, else the stored one.
pub open spec fn resolved(flag: Option<Seq<char>>, stored: Option<Seq<char>>) -> Option<Seq<char>> {
    match flag {
        Some(f) => Some(f),
        None => stored,
    }
}

/// The text of a missing-coordinate error.
pub open spec fn missing_message(name: Seq<char>, flag_name: Seq<char>, env_name: Seq<char>) -> Seq<char> {
    "no "@ + name + " given \u{2014} pass --"@ + flag_name + ", set "@ + env_name
        + ", or store a default with `mcpg cloud use --"@ + flag_name + " <value>`"@
}

impl MissingCoord {
    /// The error text shown to the user.
    pub fn message(&self) -> (r: String)
        ensures
            r@ == missing_message(self.name@, self.flag_name@, self.env_name@),
    {
        let mut s = "no ".to_owned();
        s.append(self.name.as_str());
        s.append(" given \u{2014} pass --");
        s.append(self.flag_name.as_str());
        s.append(", set ");
        s.append(self.env_name.as_str());
        s.append(", or store a default with `mcpg cloud use --");
        s.append(self.flag_name.as_str());
        s.append(" <value>`");
        s
    }
}

/// Resolve one coordinate: `flag` (already folded with its environment
/// variable) wins, then the stored context value, else an error.
pub fn resolve_coord(
    flag: Option<String>,
    ctx_value: Option<&String>,
    name: &str,
    flag_name: &str,
    env_name: &str,
) -> (r: Result<String, MissingCoord>)
    ensures
        r is Ok <==> resolved(flag.deep_view(), ctx_value.deep_view()) is Some,
        r matches Ok(v) ==> v@ == resolved(flag.deep_view(), ctx_value.deep_view())->0,
        r matches Err(e) ==> e.name@ == name@ && e.flag_name@ == flag_name@ && e.env_name@
            == env_name@,
{
    match flag {
        Some(f) => Ok(f),
        None => match ctx_value {
            Some(c) => Ok(c.clone()),
            None => Err(
                MissingCoord {
                    name: name.to_owned(),
                    flag_name: flag_name.to_owned(),
                    env_name: env_name.to_owned(),
                },
            ),
        },
    }
}

/// Resolve the org alone (commands that are scoped to an org only).
pub fn resolve_org(flag: Option<String>, ctx: &Context) -> (r: Result<String, MissingCoord>)
    ensures
        r is Ok <==> resolved(flag.deep_view(), ctx.org.deep_view()) is Some,
        r matches Ok(v) ==> v@ == resolved(flag.deep_view(), ctx.org.deep_view())->0,
        r matches Err(e) ==> e.name@ == "org"@ && e.flag_name@ == "org"@ && e.env_name@
            == "MCPG_ORG"@,
{
    resolve_coord(flag, ctx.org.as_ref(), "org", "org", "MCPG_ORG")
}

/// Resolve all three coordinates; the first one missing (in the order org,
/// workspace, environment) is the error.
pub fn resolve_coords(
    org: Option<String>,
    workspace: Option<String>,
    env: Option<String>,
    ctx: &Context,
) -> (r: Result<Coords, MissingCoord>)
    ensures
        ({
            let o = resolved(org.deep_view(), ctx.org.deep_view());
            let w = resolved(workspace.deep_view(), ctx.workspace.deep_view());
            let e = resolved(env.deep_view(), ctx.env.deep_view());
            &&& (r is Ok <==> o is Some && w is Some && e is Some)
            &&& r matches Ok(c) ==> c.org@ == o->0 && c.workspace@ == w->0 && c.env@ == e->0
            &&& r matches Err(m) ==> if o is None {
                m.name@ == "org"@ && m.flag_name@ == "org"@ && m.env_name@ == "MCPG_ORG"@
            } else if w is None {
                m.name@ == "workspace"@ && m.flag_name@ == "workspace"@ && m.env_name@
                    == "MCPG_WORKSPACE"@
            } else {
                m.name@ == "environment"@ && m.flag_name@ == "env"@ && m.env_name@
                    == "MCPG_ENV"@
            }
        }),
{
    let org = resolve_org(org, ctx)?;
    let workspace = resolve_coord(
        workspace,
        ctx.workspace.as_ref(),
        "workspace",
        "workspace",
        "MCPG_WORKSPACE",
    )?;
    let env = resolve_coord(env, ctx.env.as_ref(), "environment", "env", "MCPG_ENV")?;
    Ok(Coords { org, workspace, env })
}

/// The context `mcpg cloud use` stores: every coordinate given now replaces
/// the stored one, the others are kept.
pub fn merge_context(
    org: Option<String>,
    workspace: Option<String>,
    env: Option<String>,
    stored: Context,
) -> (r: Context)
    ensures
        r.org.deep_view() == resolved(org.deep_view(), stored.org.deep_view()),
        r.workspace.deep_view() == resolved(workspace.deep_view(), stored.workspace.deep_view()),
        r.env.deep_view() == resolved(env.deep_view(), stored.env.deep_view()),
{
    Context {
        org: match org {
            Some(o) => Some(o),
            None => stored.org,
        },
        workspace: match workspace {
            Some(w) => Some(w),
            None => stored.workspace,
        },
        env: match env {
            Some(e) => Some(e),
            None => stored.env,
        },
    }
}

/// Law: what `use` stores is what later commands get. After storing
/// `flag` over `stored`, resolving with no explicit value yields the value
/// `use` was given, or the one stored before when it was given none.
pub proof fn law_use_then_resolve(flag: Option<Seq<char>>, stored: Option<Seq<char>>)
    ensures
        resolved(None, resolved(flag, stored)) == resolved(flag, stored),
        flag is Some ==> resolved(None, resolved(flag, stored)) == flag,
        flag is None ==> resolved(None, resolved(flag, stored)) == stored,
{
}

} // verus!
