//! What a publish sends: the deployment parameters, the size ladder, the
//! request body, and which version a redeploy re-publishes.

use vstd::prelude::*;
use crate::text::chars_of;

verus! {

/// The deployment parameters of `publish`.
pub struct PublishArgs {
    pub name: String,
    /// Gateway image tag; empty for the platform's default release.
    pub image_tag: String,
    pub replicas: u32,
    pub region: String,
    pub isolation_tier: String,
    /// Instance size class (`s` | `m` | `l` | `xl`); the control plane
    /// caps it by plan.
    pub size: String,
    pub custom_hostname: String,
    /// Path to the config file to publish (read verbatim, validated by the
    /// control plane).
    pub config_file: Option<String>,
}

/// The body of a publish call. Empty optional texts are left out when it is
/// serialized.
pub struct PublishBody {
    pub name: String,
    pub image_tag: String,
    pub replicas: u32,
    pub region: String,
    pub isolation_tier: String,
    pub size: String,
    pub custom_hostname: String,
    pub config_toml: String,
}

/// The instance size classes, smallest first.
#[derive(PartialEq, Eq, Structural, Clone, Copy)]
pub enum SizeClass {
    S,
    M,
    L,
    Xl,
}

/// The size class a flag value names, if any (exact, lower case).
pub open spec fn size_named(s: Seq<char>) -> Option<SizeClass> {
    if s == seq!['s'] {
        Some(SizeClass::S)
    } else if s == seq!['m'] {
        Some(SizeClass::M)
    } else if s == seq!['l'] {
        Some(SizeClass::L)
    } else if s == seq!['x', 'l'] {
        Some(SizeClass::Xl)
    } else {
        None
    }
}

/// The flag spelling of a size class.
pub open spec fn size_text(c: SizeClass) -> Seq<char> {
    match c {
        SizeClass::S => seq!['s'],
        SizeClass::M => seq!['m'],
        SizeClass::L => seq!['l'],
        SizeClass::Xl => seq!['x', 'l'],
    }
}

impl SizeClass {
    /// The size class used when `--size` is not given.
    pub fn default_class() -> (r: SizeClass)
        ensures
            r == SizeClass::S,
    {
        SizeClass::S
    }

    /// Parse a `--size` value: one of `s`, `m`, `l`, `xl`, nothing else.
    pub fn parse(s: &str) -> (r: Option<SizeClass>)
        ensures
            r == size_named(s@),
    {
        let cs = chars_of(s);
        if cs.len() == 1 {
            if cs[0] == 's' {
                assert(cs@ =~= seq!['s']);
                Some(SizeClass::S)
            } else if cs[0] == 'm' {
                assert(cs@ =~= seq!['m']);
                Some(SizeClass::M)
            } else if cs[0] == 'l' {
                assert(cs@ =~= seq!['l']);
                Some(SizeClass::L)
            } else {
                assert(cs@ != seq!['s'] && cs@ != seq!['m'] && cs@ != seq!['l']);
                None
            }
        } else if cs.len() == 2 && cs[0] == 'x' && cs[1] == 'l' {
            assert(cs@ =~= seq!['x', 'l']);
            Some(SizeClass::Xl)
        } else {
            assert(cs@.len() == 2 ==> cs@ != seq!['x', 'l'] || (cs@[0] == 'x' && cs@[1] == 'l'));
            None
        }
    }

    /// The flag spelling (`s`, `m`, `l`, `xl`).
    pub fn name(&self) -> (r: String)
        ensures
            r@ == size_text(*self),
    {
        let mut s = String::new();
        match self {
            SizeClass::S => crate::text::push_char(&mut s, 's'),
            SizeClass::M => crate::text::push_char(&mut s, 'm'),
            SizeClass::L => crate::text::push_char(&mut s, 'l'),
            SizeClass::Xl => {
                crate::text::push_char(&mut s, 'x');
                crate::text::push_char(&mut s, 'l');
            },
        }
        assert(s@ =~= size_text(*self));
        s
    }
}

/// A size class names itself: parsing its spelling gives it back.
pub proof fn law_size_spelling_round_trips(c: SizeClass)
    ensures
        size_named(size_text(c)) == Some(c),
{
    assert(seq!['s'][0] == 's' && seq!['m'][0] == 'm' && seq!['l'][0] == 'l');
    assert(seq!['s'] != seq!['m'] && seq!['s'] != seq!['l'] && seq!['m'] != seq!['l']);
    assert(seq!['x', 'l'].len() == 2);
}

/// The body a publish sends: the arguments as given, with the config text.
pub fn publish_body(args: PublishArgs, config_toml: String) -> (r: PublishBody)
    ensures
        r.name == args.name,
        r.image_tag == args.image_tag,
        r.replicas == args.replicas,
        r.region == args.region,
        r.isolation_tier == args.isolation_tier,
        r.size == args.size,
        r.custom_hostname == args.custom_hostname,
        r.config_toml == config_toml,
{
    PublishBody {
        name: args.name,
        image_tag: args.image_tag,
        replicas: args.replicas,
        region: args.region,
        isolation_tier: args.isolation_tier,
        size: args.size,
        custom_hostname: args.custom_hostname,
        config_toml,
    }
}

/// The body of a rollback or redeploy: the stored config text re-published
/// under the same name with the given parameters and no custom hostname
/// (parameters are not inherited from the version being restored).
pub fn republish_body(
    name: &str,
    image_tag: String,
    replicas: u32,
    region: String,
    isolation_tier: String,
    size: String,
    config_toml: String,
) -> (r: PublishBody)
    ensures
        r.name@ == name@,
        r.image_tag == image_tag,
        r.replicas == replicas,
        r.region == region,
        r.isolation_tier == isolation_tier,
        r.size == size,
        r.custom_hostname@ == Seq::<char>::empty(),
        r.config_toml == config_toml,
{
    PublishBody {
        name: name.to_owned(),
        image_tag,
        replicas,
        region,
        isolation_tier,
        size,
        custom_hostname: String::new(),
        config_toml,
    }
}

/// A published config version as the version list shows it.
pub struct VersionEntry {
    pub version: i64,
    pub content_sha256: String,
}

/// The newest (largest) version number in a list.
pub fn newest_version(versions: &Vec<VersionEntry>) -> (r: Option<i64>)
    ensures
        r is None <==> versions@.len() == 0,
        r matches Some(v) ==> (exists|i: int| 0 <= i < versions@.len() && versions@[i].version == v)
            && forall|i: int| 0 <= i < versions@.len() ==> versions@[i].version <= v,
{
    let mut best: Option<i64> = None;
    let mut i: usize = 0;
    while i < versions.len()
        invariant
            i <= versions@.len(),
            best is None <==> i == 0,
            best matches Some(v) ==> (exists|k: int| 0 <= k < i && versions@[k].version == v)
                && forall|k: int| 0 <= k < i ==> versions@[k].version <= v,
        decreases versions@.len() - i,
    {
        let v = versions[i].version;
        best = match best {
            Some(b) => if v > b {
                Some(v)
            } else {
                Some(b)
            },
            None => Some(v),
        };
        i = i + 1;
    }
    best
}

/// What a service-token request asks for: `roles` is sent only when some
/// were given (the control plane then applies its default, `member`).
pub struct TokenRequest {
    pub name: String,
    pub expires_days: i64,
    pub roles: Option<Vec<String>>,
}

/// The service-token request for a name, roles and term.
pub fn token_request(name: &str, roles: Vec<String>, expires_days: i64) -> (r: TokenRequest)
    ensures
        r.name@ == name@,
        r.expires_days == expires_days,
        roles@.len() == 0 ==> r.roles is None,
        roles@.len() > 0 ==> r.roles == Some(roles),
{
    TokenRequest {
        name: name.to_owned(),
        expires_days,
        roles: if roles.len() == 0 {
            None
        } else {
            Some(roles)
        },
    }
}

} // verus!
