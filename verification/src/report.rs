//! The text each command prints, built from what the control plane answered.
//! Every function returns whole lines, each ending in `'\n'`.

use vstd::prelude::*;
use crate::coords::Context;
use crate::deploy::VersionEntry;
use crate::names::{InstanceView, NameError};
use crate::text::{
    append_or, append_or_padded, append_padded, concat_map, i64_text, join, joined,
    lemma_concat_map_append, lemma_concat_map_pointwise, lemma_concat_map_step, lemma_take_all, or_text, pad_right, signed_decimal, u64_text, decimal,
};

verus! {

/// Whether `s` is exactly `lit`.
fn is_text(s: &String, lit: &str) -> (r: bool)
    ensures
        r == (s@ == lit@),
{
    *s == lit.to_owned()
}

/// `s` followed by a newline.
pub open spec fn line(s: Seq<char>) -> Seq<char> {
    s + "\n"@
}

/// A listing under a header gains, for one more item, exactly that item's rows.
proof fn lemma_listing_push<T>(head: Seq<char>, list: Seq<T>, x: T, f: spec_fn(T) -> Seq<char>)
    ensures
        head + concat_map(list.push(x), f) == head + concat_map(list, f) + f(x),
{
    assert(list.push(x).drop_last() =~= list);
    assert(list.push(x).last() == x);
    assert(head + (concat_map(list, f) + f(x)) =~= head + concat_map(list, f) + f(x));
}

// ---------------------------------------------------------------- versions

/// One row of the version list.
pub open spec fn version_row(v: VersionEntry) -> Seq<char> {
    line(pad_right(signed_decimal(v.version as int), 8) + "  "@ + v.content_sha256@)
}

/// The `versions` listing.
pub open spec fn versions_text(name: Seq<char>, list: Seq<VersionEntry>) -> Seq<char> {
    if list.len() == 0 {
        line("(no config versions for '"@ + name + "')"@)
    } else {
        line(pad_right("VERSION"@, 8) + "  CONTENT-SHA256"@) + concat_map(
            list,
            |v: VersionEntry| version_row(v),
        )
    }
}

/// Law: listing one more version adds exactly its row at the end.
pub proof fn law_versions_list_every_version(name: Seq<char>, list: Seq<VersionEntry>, v: VersionEntry)
    ensures
        list.len() > 0 ==> versions_text(name, list.push(v)) == versions_text(name, list)
            + version_row(v),
{
    lemma_listing_push(
        line(pad_right("VERSION"@, 8) + "  CONTENT-SHA256"@),
        list,
        v,
        |v: VersionEntry| version_row(v),
    );
}

/// What `versions` prints for the listed config versions.
pub fn versions_report(name: &str, list: &Vec<VersionEntry>) -> (r: String)
    ensures
        r@ == versions_text(name@, list@),
{
    if list.len() == 0 {
        let mut s = "(no config versions for '".to_owned();
        s.append(name);
        s.append("')");
        s.append("\n");
        return s;
    }
    let ghost f = |v: VersionEntry| version_row(v);
    let mut s = String::new();
    append_padded(&mut s, "VERSION", 8);
    s.append("  CONTENT-SHA256");
    s.append("\n");
    let ghost head = s@;
    let mut i: usize = 0;
    assert(list@.take(0) =~= Seq::<VersionEntry>::empty());
    while i < list.len()
        invariant
            i <= list@.len(),
            f == (|v: VersionEntry| version_row(v)),
            s@ == head + concat_map(list@.take(i as int), f),
        decreases list@.len() - i,
    {
        let v = &list[i];
        let ghost before = s@;
        append_padded(&mut s, i64_text(v.version).as_str(), 8);
        s.append("  ");
        s.append(v.content_sha256.as_str());
        s.append("\n");
        proof {
            assert(s@ =~= before + version_row(*v));
            lemma_concat_map_step(list@, f, i as int);
            assert(s@ =~= head + concat_map(list@.take(i + 1), f));
        }
        i = i + 1;
    }
    proof {
        lemma_take_all(list@);
    }
    s
}

/// The two header lines of a config diff.
pub fn diff_header(name: &str, from_version: i64, to_version: i64) -> (r: String)
    ensures
        r@ == "--- "@ + name@ + " v"@ + signed_decimal(from_version as int) + " \n+++ "@ + name@
            + " v"@ + signed_decimal(to_version as int) + "\n"@,
{
    let mut s = "--- ".to_owned();
    s.append(name);
    s.append(" v");
    s.append(i64_text(from_version).as_str());
    s.append(" \n+++ ");
    s.append(name);
    s.append(" v");
    s.append(i64_text(to_version).as_str());
    s.append("\n");
    s
}

// ---------------------------------------------------------------- domains

/// A domain claim.
pub struct DomainView {
    pub hostname: String,
    pub status: String,
    pub record_name: String,
    pub record_value: String,
}

/// The TXT challenge of a claim, and how to complete it unless verified.
pub open spec fn challenge_text(d: DomainView) -> Seq<char> {
    line("domain:  "@ + d.hostname@ + "  ["@ + d.status@ + "]"@) + if d.status@ == "verified"@ {
        seq![]
    } else {
        line("\nTo verify ownership, create this DNS TXT record:\n"@) + line(
            "  name:  "@ + d.record_name@,
        ) + line("  value: "@ + d.record_value@) + line(
            "\nThen run: mcpg cloud domains verify --org <org> "@ + d.hostname@,
        )
    }
}

/// Law: a verified claim shows no challenge, so its text and its list row do
/// not depend on the TXT record; an unverified claim shows the record's name
/// and value, in its challenge and at the end of its list row.
pub proof fn law_challenge_only_until_verified(d: DomainView, record_name: String, record_value: String)
    ensures
        d.status@ == "verified"@ ==> challenge_text(d) == challenge_text(
            (DomainView {
                hostname: d.hostname,
                status: d.status,
                record_name: record_name,
                record_value: record_value,
            }),
        ) && domain_row(d) == domain_row(
            (DomainView {
                hostname: d.hostname,
                status: d.status,
                record_name: record_name,
                record_value: record_value,
            }),
        ),
        d.status@ != "verified"@ ==> exists|before: Seq<char>, after: Seq<char>|
            challenge_text(d) == #[trigger] (before + line("  name:  "@ + d.record_name@) + line(
                "  value: "@ + d.record_value@,
            ) + after),
        d.status@ != "verified"@ ==> exists|before: Seq<char>|
            domain_row(d) == #[trigger] (before + d.record_name@ + " TXT "@ + d.record_value@ + "\n"@),
{
    if d.status@ != "verified"@ {
        let first = line("domain:  "@ + d.hostname@ + "  ["@ + d.status@ + "]"@);
        let before = first + line("\nTo verify ownership, create this DNS TXT record:\n"@);
        let after = line("\nThen run: mcpg cloud domains verify --org <org> "@ + d.hostname@);
        assert(challenge_text(d) =~= before + line("  name:  "@ + d.record_name@) + line(
            "  value: "@ + d.record_value@,
        ) + after);
        let head = pad_right(d.hostname@, 42) + "  "@ + pad_right(d.status@, 10) + "  "@;
        assert(domain_row(d) =~= head + d.record_name@ + " TXT "@ + d.record_value@ + "\n"@);
    }
}

/// What `domains add` prints for the claim it made.
pub fn challenge_report(d: &DomainView) -> (r: String)
    ensures
        r@ == challenge_text(*d),
{
    let mut s = "domain:  ".to_owned();
    s.append(d.hostname.as_str());
    s.append("  [");
    s.append(d.status.as_str());
    s.append("]");
    s.append("\n");
    if !is_text(&d.status, "verified") {
        s.append("\nTo verify ownership, create this DNS TXT record:\n");
        s.append("\n");
        s.append("  name:  ");
        s.append(d.record_name.as_str());
        s.append("\n");
        s.append("  value: ");
        s.append(d.record_value.as_str());
        s.append("\n");
        s.append("\nThen run: mcpg cloud domains verify --org <org> ");
        s.append(d.hostname.as_str());
        s.append("\n");
        assert(s@ =~= challenge_text(*d));
    } else {
        assert(s@ =~= challenge_text(*d));
    }
    s
}

/// The result of a DNS TXT check.
pub struct DomainCheck {
    pub hostname: String,
    pub matched: bool,
    pub found: Vec<String>,
    pub queried: String,
    pub instructions: Option<String>,
}

/// What `domains verify` prints, and its error when the check failed.
pub struct VerifyReport {
    pub text: String,
    pub failure: Option<String>,
}

/// One TXT record found at the challenge name.
pub open spec fn found_row(r: Seq<char>) -> Seq<char> {
    line("    "@ + r)
}

/// What `domains verify` prints for a check result.
pub open spec fn verify_text(v: DomainCheck) -> Seq<char> {
    if v.matched {
        line("\u{2713} "@ + v.hostname@ + " is verified \u{2014} publish with --custom-hostname "@ + v.hostname@)
    } else {
        line("\u{2717} "@ + v.hostname@ + " is NOT verified yet (queried "@ + v.queried@ + ")"@) + (if v.found@.len() == 0 {
            line("  no TXT records found at the challenge name"@)
        } else {
            line("  TXT records found (none matched):"@) + concat_map(
                v.found.deep_view(),
                |r: Seq<char>| found_row(r),
            )
        }) + match v.instructions {
            Some(i) => line("  \u{2192} "@ + i@),
            None => seq![],
        }
    }
}

/// Law: for a failed check, instructions from the control plane add exactly
/// one line, `  → <instructions>`, at the end of the text, whether or not any
/// TXT record was found; a passed check shows none.
pub proof fn law_instructions_end_failed_check(v: DomainCheck, i: String)
    ensures
        !v.matched ==> verify_text(
            (DomainCheck {
                hostname: v.hostname,
                matched: v.matched,
                found: v.found,
                queried: v.queried,
                instructions: Some(i),
            }),
        ) == verify_text(
            (DomainCheck {
                hostname: v.hostname,
                matched: v.matched,
                found: v.found,
                queried: v.queried,
                instructions: None,
            }),
        ) + line("  \u{2192} "@ + i@),
        v.matched ==> verify_text(
            (DomainCheck {
                hostname: v.hostname,
                matched: v.matched,
                found: v.found,
                queried: v.queried,
                instructions: Some(i),
            }),
        ) == verify_text(
            (DomainCheck {
                hostname: v.hostname,
                matched: v.matched,
                found: v.found,
                queried: v.queried,
                instructions: None,
            }),
        ),
{
    let with = DomainCheck {
        hostname: v.hostname,
        matched: v.matched,
        found: v.found,
        queried: v.queried,
        instructions: Some(i),
    };
    let without = DomainCheck {
        hostname: v.hostname,
        matched: v.matched,
        found: v.found,
        queried: v.queried,
        instructions: None,
    };
    if !v.matched {
        let head = line(
            "\u{2717} "@ + v.hostname@ + " is NOT verified yet (queried "@ + v.queried@ + ")"@,
        ) + (if v.found@.len() == 0 {
            line("  no TXT records found at the challenge name"@)
        } else {
            line("  TXT records found (none matched):"@) + concat_map(
                v.found.deep_view(),
                |r: Seq<char>| found_row(r),
            )
        });
        assert(verify_text(without) =~= head);
        assert(verify_text(with) =~= head + line("  \u{2192} "@ + i@));
    }
}

/// The outcome of `domains verify`: its text, and an error exactly when the
/// record did not match.
pub fn verify_report(v: &DomainCheck) -> (r: VerifyReport)
    ensures
        r.text@ == verify_text(*v),
        v.matched ==> r.failure is None,
        !v.matched ==> (r.failure matches Some(e) && e@ == "domain '"@ + v.hostname@
            + "' not verified"@),
{
    if v.matched {
        let mut s = "\u{2713} ".to_owned();
        s.append(v.hostname.as_str());
        s.append(" is verified \u{2014} publish with --custom-hostname ");
        s.append(v.hostname.as_str());
        s.append("\n");
        assert(s@ =~= verify_text(*v));
        return VerifyReport { text: s, failure: None };
    }
    let mut s = "\u{2717} ".to_owned();
    s.append(v.hostname.as_str());
    s.append(" is NOT verified yet (queried ");
    s.append(v.queried.as_str());
    s.append(")");
    s.append("\n");
    let ghost head = s@;
    if v.found.len() == 0 {
        s.append("  no TXT records found at the challenge name");
        s.append("\n");
    } else {
        s.append("  TXT records found (none matched):");
        s.append("\n");
        let ghost f = |r: Seq<char>| found_row(r);
        let ghost fv = v.found.deep_view();
        let ghost mid = s@;
        let mut i: usize = 0;
        assert(fv.take(0) =~= Seq::<Seq<char>>::empty());
        while i < v.found.len()
            invariant
                fv == v.found.deep_view(),
                f == (|r: Seq<char>| found_row(r)),
                i <= fv.len(),
                s@ == mid + concat_map(fv.take(i as int), f),
            decreases fv.len() - i,
        {
            let ghost before = s@;
            s.append("    ");
            s.append(v.found[i].as_str());
            s.append("\n");
            proof {
                assert(fv[i as int] == v.found@[i as int]@);
                assert(s@ =~= before + found_row(fv[i as int]));
                lemma_concat_map_step(fv, f, i as int);
                assert(s@ =~= mid + concat_map(fv.take(i + 1), f));
            }
            i = i + 1;
        }
        proof {
            lemma_take_all(fv);
        }
    }
    match &v.instructions {
        Some(i) => {
            s.append("  \u{2192} ");
            s.append(i.as_str());
            s.append("\n");
        },
        None => {
            assert(s@ + seq![] == s@);
        },
    }
    assert(s@ =~= verify_text(*v));
    let mut e = "domain '".to_owned();
    e.append(v.hostname.as_str());
    e.append("' not verified");
    VerifyReport { text: s, failure: Some(e) }
}

/// One row of the domain list.
pub open spec fn domain_row(d: DomainView) -> Seq<char> {
    line(pad_right(d.hostname@, 42) + "  "@ + pad_right(d.status@, 10) + "  "@ + if d.status@
        == "verified"@ {
        seq![]
    } else {
        d.record_name@ + " TXT "@ + d.record_value@
    })
}

/// The `domains list` listing.
pub open spec fn domains_text(org: Seq<char>, list: Seq<DomainView>) -> Seq<char> {
    if list.len() == 0 {
        line("(no custom domains claimed \u{2014} `mcpg cloud domains add --org "@ + org + " <hostname>`)"@)
    } else {
        line(pad_right("HOSTNAME"@, 42) + "  "@ + pad_right("STATUS"@, 10) + "  CHALLENGE RECORD"@)
            + concat_map(list, |d: DomainView| domain_row(d))
    }
}

/// Law: listing one more claim adds exactly its row at the end.
pub proof fn law_domains_list_every_claim(org: Seq<char>, list: Seq<DomainView>, d: DomainView)
    ensures
        list.len() > 0 ==> domains_text(org, list.push(d)) == domains_text(org, list) + domain_row(d),
{
    lemma_listing_push(
        line(pad_right("HOSTNAME"@, 42) + "  "@ + pad_right("STATUS"@, 10) + "  CHALLENGE RECORD"@),
        list,
        d,
        |d: DomainView| domain_row(d),
    );
}

/// What `domains list` prints for the org's claims.
pub fn domains_report(org: &str, list: &Vec<DomainView>) -> (r: String)
    ensures
        r@ == domains_text(org@, list@),
{
    if list.len() == 0 {
        let mut s = "(no custom domains claimed \u{2014} `mcpg cloud domains add --org ".to_owned();
        s.append(org);
        s.append(" <hostname>`)");
        s.append("\n");
        return s;
    }
    let ghost f = |d: DomainView| domain_row(d);
    let mut s = String::new();
    append_padded(&mut s, "HOSTNAME", 42);
    s.append("  ");
    append_padded(&mut s, "STATUS", 10);
    s.append("  CHALLENGE RECORD");
    s.append("\n");
    let ghost head = s@;
    let mut i: usize = 0;
    assert(list@.take(0) =~= Seq::<DomainView>::empty());
    while i < list.len()
        invariant
            i <= list@.len(),
            f == (|d: DomainView| domain_row(d)),
            s@ == head + concat_map(list@.take(i as int), f),
        decreases list@.len() - i,
    {
        let d = &list[i];
        let ghost before = s@;
        append_padded(&mut s, d.hostname.as_str(), 42);
        s.append("  ");
        append_padded(&mut s, d.status.as_str(), 10);
        s.append("  ");
        if !is_text(&d.status, "verified") {
            s.append(d.record_name.as_str());
            s.append(" TXT ");
            s.append(d.record_value.as_str());
        }
        s.append("\n");
        proof {
            assert(s@ =~= before + domain_row(*d));
            lemma_concat_map_step(list@, f, i as int);
            assert(s@ =~= head + concat_map(list@.take(i + 1), f));
        }
        i = i + 1;
    }
    proof {
        lemma_take_all(list@);
    }
    s
}

// ---------------------------------------------------------------- tokens

/// A freshly minted service token, secret included.
pub struct CreatedToken {
    pub id: String,
    pub name: String,
    pub token: String,
    pub org_roles: Vec<String>,
    pub expires_at: Option<String>,
}

/// What `service-token create` prints: the secret, once.
pub open spec fn created_token_text(t: CreatedToken) -> Seq<char> {
    line("\u{2713} created service token '"@ + t.name@ + "' ("@ + t.id@ + ")"@) + line(
        "  roles:   "@ + joined(t.org_roles.deep_view(), ", "@),
    ) + line("  expires: "@ + or_text(t.expires_at, "never"@)) + line(seq![]) + line(
        "  Store this token now \u{2014} it will NOT be shown again:"@,
    ) + line(seq![]) + line("    "@ + t.token@) + line(seq![]) + line(
        "  Use it as: Authorization: Bearer "@ + t.token@,
    )
}

/// Law: a token minted with an expiry and the same token minted without one
/// print the same text but for the expiry line, which shows the expiry time
/// in the first case and `never` in the second.
pub proof fn law_expiry_line(t: CreatedToken, expires: String)
    ensures
        exists|before: Seq<char>, after: Seq<char>|
            created_token_text(
                (CreatedToken {
                    id: t.id,
                    name: t.name,
                    token: t.token,
                    org_roles: t.org_roles,
                    expires_at: Some(expires),
                }),
            ) == #[trigger] (before + "  expires: "@ + expires@ + "\n"@ + after) && created_token_text(
                (CreatedToken {
                    id: t.id,
                    name: t.name,
                    token: t.token,
                    org_roles: t.org_roles,
                    expires_at: None,
                }),
            ) == before + "  expires: "@ + "never"@ + "\n"@ + after,
{
    let with = CreatedToken {
        id: t.id,
        name: t.name,
        token: t.token,
        org_roles: t.org_roles,
        expires_at: Some(expires),
    };
    let without = CreatedToken {
        id: t.id,
        name: t.name,
        token: t.token,
        org_roles: t.org_roles,
        expires_at: None,
    };
    let before = line("\u{2713} created service token '"@ + t.name@ + "' ("@ + t.id@ + ")"@) + line(
        "  roles:   "@ + joined(t.org_roles.deep_view(), ", "@),
    );
    let after = line(seq![]) + line("  Store this token now \u{2014} it will NOT be shown again:"@)
        + line(seq![]) + line("    "@ + t.token@) + line(seq![]) + line(
        "  Use it as: Authorization: Bearer "@ + t.token@,
    );
    assert(created_token_text(with) =~= before + "  expires: "@ + expires@ + "\n"@ + after);
    assert(created_token_text(without) =~= before + "  expires: "@ + "never"@ + "\n"@ + after);
}

/// What `service-token create` prints for the token it minted.
pub fn created_token_report(t: &CreatedToken) -> (r: String)
    ensures
        r@ == created_token_text(*t),
{
    let mut s = "\u{2713} created service token '".to_owned();
    s.append(t.name.as_str());
    s.append("' (");
    s.append(t.id.as_str());
    s.append(")");
    s.append("\n");
    s.append("  roles:   ");
    s.append(join(&t.org_roles, ", ").as_str());
    s.append("\n");
    s.append("  expires: ");
    append_or(&mut s, &t.expires_at, "never");
    s.append("\n");
    s.append("\n");
    s.append("  Store this token now \u{2014} it will NOT be shown again:");
    s.append("\n");
    s.append("\n");
    s.append("    ");
    s.append(t.token.as_str());
    s.append("\n");
    s.append("\n");
    s.append("  Use it as: Authorization: Bearer ");
    s.append(t.token.as_str());
    s.append("\n");
    assert(s@ =~= created_token_text(*t));
    s
}

/// A service token as the list shows it (never its secret).
pub struct TokenView {
    pub id: String,
    pub name: String,
    pub org_roles: Vec<String>,
    pub expires_at: Option<String>,
    pub last_used_at: Option<String>,
    pub active: bool,
}

/// One row of the token list.
pub open spec fn token_row(t: TokenView) -> Seq<char> {
    line(pad_right(t.name@, 38) + "  "@ + pad_right(joined(t.org_roles.deep_view(), ","@), 16)
        + "  "@ + pad_right(if t.active { "yes"@ } else { "no"@ }, 8) + "  "@ + pad_right(
        or_text(t.expires_at, "never"@),
        20,
    ) + "  "@ + pad_right(or_text(t.last_used_at, "never"@), 20) + "  "@ + t.id@)
}

/// Law: listing one more token adds exactly its row at the end.
pub proof fn law_tokens_list_every_token(org: Seq<char>, list: Seq<TokenView>, t: TokenView)
    ensures
        list.len() > 0 ==> tokens_text(org, list.push(t)) == tokens_text(org, list) + token_row(t),
{
    lemma_listing_push(
        line(pad_right("NAME"@, 38) + "  "@ + pad_right("ROLES"@, 16) + "  "@ + pad_right(
            "ACTIVE"@,
            8,
        ) + "  "@ + pad_right("EXPIRES"@, 20) + "  "@ + pad_right("LAST USED"@, 20) + "  ID"@),
        list,
        t,
        |t: TokenView| token_row(t),
    );
}

/// Law: a token without an expiry, or never used, shows `never` in that
/// column where the time would stand; the rest of its row is unchanged.
pub proof fn law_token_row_never(t: TokenView, expires: String, used: String)
    ensures
        exists|before: Seq<char>, after: Seq<char>|
            token_row(
                (TokenView {
                    id: t.id,
                    name: t.name,
                    org_roles: t.org_roles,
                    expires_at: Some(expires),
                    last_used_at: t.last_used_at,
                    active: t.active,
                }),
            ) == #[trigger] (before + pad_right(expires@, 20) + after) && token_row(
                (TokenView {
                    id: t.id,
                    name: t.name,
                    org_roles: t.org_roles,
                    expires_at: None,
                    last_used_at: t.last_used_at,
                    active: t.active,
                }),
            ) == before + pad_right("never"@, 20) + after,
        exists|before: Seq<char>, after: Seq<char>|
            token_row(
                (TokenView {
                    id: t.id,
                    name: t.name,
                    org_roles: t.org_roles,
                    expires_at: t.expires_at,
                    last_used_at: Some(used),
                    active: t.active,
                }),
            ) == #[trigger] (before + pad_right(used@, 20) + after) && token_row(
                (TokenView {
                    id: t.id,
                    name: t.name,
                    org_roles: t.org_roles,
                    expires_at: t.expires_at,
                    last_used_at: None,
                    active: t.active,
                }),
            ) == before + pad_right("never"@, 20) + after,
{
    let roles = pad_right(joined(t.org_roles.deep_view(), ","@), 16);
    let act = pad_right(if t.active { "yes"@ } else { "no"@ }, 8);
    let e1 = TokenView {
        id: t.id,
        name: t.name,
        org_roles: t.org_roles,
        expires_at: Some(expires),
        last_used_at: t.last_used_at,
        active: t.active,
    };
    let e0 = TokenView {
        id: t.id,
        name: t.name,
        org_roles: t.org_roles,
        expires_at: None,
        last_used_at: t.last_used_at,
        active: t.active,
    };
    let b1 = pad_right(t.name@, 38) + "  "@ + roles + "  "@ + act + "  "@;
    let a1 = "  "@ + pad_right(or_text(t.last_used_at, "never"@), 20) + "  "@ + t.id@ + "\n"@;
    assert(token_row(e1) =~= b1 + pad_right(expires@, 20) + a1);
    assert(token_row(e0) =~= b1 + pad_right("never"@, 20) + a1);
    let u1 = TokenView {
        id: t.id,
        name: t.name,
        org_roles: t.org_roles,
        expires_at: t.expires_at,
        last_used_at: Some(used),
        active: t.active,
    };
    let u0 = TokenView {
        id: t.id,
        name: t.name,
        org_roles: t.org_roles,
        expires_at: t.expires_at,
        last_used_at: None,
        active: t.active,
    };
    let b2 = b1 + pad_right(or_text(t.expires_at, "never"@), 20) + "  "@;
    let a2 = "  "@ + t.id@ + "\n"@;
    assert(token_row(u1) =~= b2 + pad_right(used@, 20) + a2);
    assert(token_row(u0) =~= b2 + pad_right("never"@, 20) + a2);
}

/// One printed row of the token list.
fn token_row_report(t: &TokenView) -> (r: String)
    ensures
        r@ == token_row(*t),
{
    let mut s = String::new();
    append_padded(&mut s, t.name.as_str(), 38);
    s.append("  ");
    append_padded(&mut s, join(&t.org_roles, ",").as_str(), 16);
    s.append("  ");
    let ghost mid = s@;
    if t.active {
        append_padded(&mut s, "yes", 8);
    } else {
        append_padded(&mut s, "no", 8);
    }
    assert(s@ == mid + pad_right(if t.active { "yes"@ } else { "no"@ }, 8));
    s.append("  ");
    append_or_padded(&mut s, &t.expires_at, "never", 20);
    s.append("  ");
    append_or_padded(&mut s, &t.last_used_at, "never", 20);
    s.append("  ");
    s.append(t.id.as_str());
    s.append("\n");
    assert(s@ =~= token_row(*t));
    s
}

/// The `service-token list` listing.
pub open spec fn tokens_text(org: Seq<char>, list: Seq<TokenView>) -> Seq<char> {
    if list.len() == 0 {
        line("(no service tokens \u{2014} `mcpg cloud service-token create --org "@ + org + " <name>`)"@)
    } else {
        line(pad_right("NAME"@, 38) + "  "@ + pad_right("ROLES"@, 16) + "  "@ + pad_right(
            "ACTIVE"@,
            8,
        ) + "  "@ + pad_right("EXPIRES"@, 20) + "  "@ + pad_right("LAST USED"@, 20) + "  ID"@)
            + concat_map(list, |t: TokenView| token_row(t))
    }
}

/// The token fields the list shows agree.
pub open spec fn same_shown_token(t1: TokenView, t2: TokenView) -> bool {
    &&& t1.id@ == t2.id@
    &&& t1.name@ == t2.name@
    &&& t1.org_roles.deep_view() == t2.org_roles.deep_view()
    &&& t1.expires_at.deep_view() == t2.expires_at.deep_view()
    &&& t1.last_used_at.deep_view() == t2.last_used_at.deep_view()
    &&& t1.active == t2.active
}

/// Law: the token list depends on the shown fields alone. Two lists whose
/// tokens agree, one for one, on id, name, roles, expiry, last use and
/// activity print the same text, whatever else either side carries; no
/// secret can reach the listing.
pub proof fn law_token_list_shows_only_listed_fields(
    org: Seq<char>,
    l1: Seq<TokenView>,
    l2: Seq<TokenView>,
)
    requires
        l1.len() == l2.len(),
        forall|k: int| 0 <= k < l1.len() ==> same_shown_token(#[trigger] l1[k], l2[k]),
    ensures
        tokens_text(org, l1) == tokens_text(org, l2),
{
    let f = |t: TokenView| token_row(t);
    assert forall|k: int| 0 <= k < l1.len() implies f(#[trigger] l1[k]) == f(l2[k]) by {
        let (a, b) = (l1[k], l2[k]);
        assert(same_shown_token(a, b));
        assert(or_text(a.expires_at, "never"@) == or_text(b.expires_at, "never"@));
        assert(or_text(a.last_used_at, "never"@) == or_text(b.last_used_at, "never"@));
    }
    lemma_concat_map_pointwise(l1, l2, f);
}

/// What `service-token list` prints for the org's tokens.
pub fn tokens_report(org: &str, list: &Vec<TokenView>) -> (r: String)
    ensures
        r@ == tokens_text(org@, list@),
{
    if list.len() == 0 {
        let mut s = "(no service tokens \u{2014} `mcpg cloud service-token create --org ".to_owned();
        s.append(org);
        s.append(" <name>`)");
        s.append("\n");
        return s;
    }
    let ghost f = |t: TokenView| token_row(t);
    let mut s = String::new();
    append_padded(&mut s, "NAME", 38);
    s.append("  ");
    append_padded(&mut s, "ROLES", 16);
    s.append("  ");
    append_padded(&mut s, "ACTIVE", 8);
    s.append("  ");
    append_padded(&mut s, "EXPIRES", 20);
    s.append("  ");
    append_padded(&mut s, "LAST USED", 20);
    s.append("  ID");
    s.append("\n");
    let ghost head = s@;
    let mut i: usize = 0;
    assert(list@.take(0) =~= Seq::<TokenView>::empty());
    while i < list.len()
        invariant
            i <= list@.len(),
            f == (|t: TokenView| token_row(t)),
            s@ == head + concat_map(list@.take(i as int), f),
        decreases list@.len() - i,
    {
        let row = token_row_report(&list[i]);
        s.append(row.as_str());
        proof {
            lemma_concat_map_step(list@, f, i as int);
            assert(s@ =~= head + concat_map(list@.take(i + 1), f));
        }
        i = i + 1;
    }
    proof {
        lemma_take_all(list@);
    }
    s
}

// ---------------------------------------------------------------- logs

/// One gateway log line (its time already rendered as RFC 3339 text).
pub struct LogLine {
    pub at: Option<String>,
    pub level: String,
    pub target: String,
    pub message: String,
    pub plugin_id: String,
}

/// How a log line is printed: time (or `-`), level, target, the plugin in
/// brackets when there is one, and the message.
pub open spec fn log_line_text(l: LogLine) -> Seq<char> {
    line(or_text(l.at, "-"@) + "  "@ + pad_right(l.level@, 5) + "  "@ + l.target@ + (if l.plugin_id@.len()
        == 0 {
        seq![]
    } else {
        " ["@ + l.plugin_id@ + "]"@
    }) + "  "@ + l.message@)
}

/// Law: a log line without a time shows `-` where the time would stand, and
/// a plugin id adds ` [<plugin>]` right after the target, the rest of the
/// line unchanged.
pub proof fn law_log_line_time_and_plugin(l: LogLine, at: String, plugin: String)
    ensures
        exists|rest: Seq<char>|
            log_line_text(
                (LogLine {
                    at: Some(at),
                    level: l.level,
                    target: l.target,
                    message: l.message,
                    plugin_id: l.plugin_id,
                }),
            ) == at@ + rest && #[trigger] log_line_text(
                (LogLine {
                    at: None,
                    level: l.level,
                    target: l.target,
                    message: l.message,
                    plugin_id: l.plugin_id,
                }),
            ) == "-"@ + rest,
        l.plugin_id@.len() == 0 && plugin@.len() > 0 ==> exists|before: Seq<char>, after: Seq<char>|
            log_line_text(l) == before + after && #[trigger] log_line_text(
                (LogLine {
                    at: l.at,
                    level: l.level,
                    target: l.target,
                    message: l.message,
                    plugin_id: plugin,
                }),
            ) == before + " ["@ + plugin@ + "]"@ + after,
{
    let timed = LogLine {
        at: Some(at),
        level: l.level,
        target: l.target,
        message: l.message,
        plugin_id: l.plugin_id,
    };
    let untimed = LogLine {
        at: None,
        level: l.level,
        target: l.target,
        message: l.message,
        plugin_id: l.plugin_id,
    };
    let rest = "  "@ + pad_right(l.level@, 5) + "  "@ + l.target@ + (if l.plugin_id@.len() == 0 {
        seq![]
    } else {
        " ["@ + l.plugin_id@ + "]"@
    }) + "  "@ + l.message@ + "\n"@;
    assert(log_line_text(timed) =~= at@ + rest);
    assert(log_line_text(untimed) =~= "-"@ + rest);
    if l.plugin_id@.len() == 0 && plugin@.len() > 0 {
        let tagged = LogLine {
            at: l.at,
            level: l.level,
            target: l.target,
            message: l.message,
            plugin_id: plugin,
        };
        let before = or_text(l.at, "-"@) + "  "@ + pad_right(l.level@, 5) + "  "@ + l.target@;
        let after = "  "@ + l.message@ + "\n"@;
        assert(log_line_text(l) =~= before + after);
        assert(log_line_text(tagged) =~= before + " ["@ + plugin@ + "]"@ + after);
    }
}

/// The printed form of one log line.
pub fn log_line_report(l: &LogLine) -> (r: String)
    ensures
        r@ == log_line_text(*l),
{
    let mut s = String::new();
    append_or(&mut s, &l.at, "-");
    s.append("  ");
    append_padded(&mut s, l.level.as_str(), 5);
    s.append("  ");
    s.append(l.target.as_str());
    if l.plugin_id.as_str().unicode_len() > 0 {
        s.append(" [");
        s.append(l.plugin_id.as_str());
        s.append("]");
    }
    s.append("  ");
    s.append(l.message.as_str());
    s.append("\n");
    assert(s@ =~= log_line_text(*l));
    s
}

/// The logs snapshot: every line, or a note that there are none.
pub open spec fn logs_text(name: Seq<char>, list: Seq<LogLine>) -> Seq<char> {
    if list.len() == 0 {
        line("(no recent logs for '"@ + name + "' on this control-plane replica)"@)
    } else {
        concat_map(list, |l: LogLine| log_line_text(l))
    }
}

/// Law: the snapshot of one log line is that line as printed, and the
/// snapshot of two non-empty runs of lines is the snapshot of the first run
/// followed by that of the second. So every line appears, once, in order.
pub proof fn law_logs_snapshot_concatenates(
    name: Seq<char>,
    l: LogLine,
    a: Seq<LogLine>,
    b: Seq<LogLine>,
)
    ensures
        logs_text(name, seq![l]) == log_line_text(l),
        a.len() > 0 && b.len() > 0 ==> logs_text(name, a + b) == logs_text(name, a) + logs_text(
            name,
            b,
        ),
{
    let f = |x: LogLine| log_line_text(x);
    assert(seq![l].drop_last() =~= Seq::<LogLine>::empty());
    assert(seq![l].last() == l);
    assert(concat_map(Seq::<LogLine>::empty(), f) == Seq::<char>::empty());
    assert(concat_map(seq![l], f) =~= log_line_text(l));
    lemma_concat_map_append(a, b, f);
}

/// What `logs` prints for a tail snapshot.
pub fn logs_report(name: &str, list: &Vec<LogLine>) -> (r: String)
    ensures
        r@ == logs_text(name@, list@),
{
    if list.len() == 0 {
        let mut s = "(no recent logs for '".to_owned();
        s.append(name);
        s.append("' on this control-plane replica)");
        s.append("\n");
        return s;
    }
    let ghost f = |l: LogLine| log_line_text(l);
    let mut s = String::new();
    let mut i: usize = 0;
    assert(list@.take(0) =~= Seq::<LogLine>::empty());
    while i < list.len()
        invariant
            i <= list@.len(),
            f == (|l: LogLine| log_line_text(l)),
            s@ == concat_map(list@.take(i as int), f),
        decreases list@.len() - i,
    {
        let text = log_line_report(&list[i]);
        s.append(text.as_str());
        proof {
            lemma_concat_map_step(list@, f, i as int);
        }
        i = i + 1;
    }
    proof {
        lemma_take_all(list@);
    }
    s
}

// ---------------------------------------------------------------- operations

/// A provisioning operation (its start already rendered as RFC 3339 text).
pub struct Operation {
    pub kind: String,
    pub final_phase: String,
    pub error: String,
    pub started_at: Option<String>,
}

/// One operation: kind, phase, start (or `?`), and its error when it failed.
pub open spec fn operation_rows(op: Operation) -> Seq<char> {
    line(pad_right(op.kind@, 16) + "  "@ + pad_right(op.final_phase@, 12) + "  "@ + pad_right(
        or_text(op.started_at, "?"@),
        24,
    )) + if op.error@.len() == 0 {
        seq![]
    } else {
        line("    error: "@ + op.error@)
    }
}

/// Law: a failed operation shows its error on one more line, `    error:
/// <error>`, after the row it would have without one.
pub proof fn law_failed_operation_shows_error(op: Operation, error: String)
    ensures
        op.error@.len() == 0 && error@.len() > 0 ==> operation_rows(
            (Operation {
                kind: op.kind,
                final_phase: op.final_phase,
                error: error,
                started_at: op.started_at,
            }),
        ) == operation_rows(op) + line("    error: "@ + error@),
{
}

/// Law: listing one more operation adds exactly its rows at the end.
pub proof fn law_operations_list_every_operation(org: Seq<char>, list: Seq<Operation>, op: Operation)
    ensures
        list.len() > 0 ==> operations_text(org, list.push(op)) == operations_text(org, list)
            + operation_rows(op),
{
    lemma_listing_push(
        line(pad_right("KIND"@, 16) + "  "@ + pad_right("PHASE"@, 12) + "  "@ + pad_right(
            "STARTED"@,
            24,
        )),
        list,
        op,
        |op: Operation| operation_rows(op),
    );
}

/// The printed rows of one operation.
fn operation_report_rows(op: &Operation) -> (r: String)
    ensures
        r@ == operation_rows(*op),
{
    let mut s = String::new();
    append_padded(&mut s, op.kind.as_str(), 16);
    s.append("  ");
    append_padded(&mut s, op.final_phase.as_str(), 12);
    s.append("  ");
    append_or_padded(&mut s, &op.started_at, "?", 24);
    s.append("\n");
    if op.error.as_str().unicode_len() > 0 {
        s.append("    error: ");
        s.append(op.error.as_str());
        s.append("\n");
    }
    assert(s@ =~= operation_rows(*op));
    s
}

/// The `operations` listing.
pub open spec fn operations_text(org: Seq<char>, list: Seq<Operation>) -> Seq<char> {
    if list.len() == 0 {
        line("(no instances published in org "@ + org + " yet)"@)
    } else {
        line(pad_right("KIND"@, 16) + "  "@ + pad_right("PHASE"@, 12) + "  "@ + pad_right(
            "STARTED"@,
            24,
        )) + concat_map(list, |op: Operation| operation_rows(op))
    }
}

/// What `operations` prints for the org's recent operations.
pub fn operations_report(org: &str, list: &Vec<Operation>) -> (r: String)
    ensures
        r@ == operations_text(org@, list@),
{
    if list.len() == 0 {
        let mut s = "(no instances published in org ".to_owned();
        s.append(org);
        s.append(" yet)");
        s.append("\n");
        return s;
    }
    let ghost f = |op: Operation| operation_rows(op);
    let mut s = String::new();
    append_padded(&mut s, "KIND", 16);
    s.append("  ");
    append_padded(&mut s, "PHASE", 12);
    s.append("  ");
    append_padded(&mut s, "STARTED", 24);
    s.append("\n");
    let ghost head = s@;
    let mut i: usize = 0;
    assert(list@.take(0) =~= Seq::<Operation>::empty());
    while i < list.len()
        invariant
            i <= list@.len(),
            f == (|op: Operation| operation_rows(op)),
            s@ == head + concat_map(list@.take(i as int), f),
        decreases list@.len() - i,
    {
        let rows = operation_report_rows(&list[i]);
        s.append(rows.as_str());
        proof {
            lemma_concat_map_step(list@, f, i as int);
            assert(s@ =~= head + concat_map(list@.take(i + 1), f));
        }
        i = i + 1;
    }
    proof {
        lemma_take_all(list@);
    }
    s
}

// ---------------------------------------------------------------- whoami

/// The first line of `whoami`: whether a login is stored.
pub open spec fn credentials_text(has_credentials: bool) -> Seq<char> {
    line("credentials: "@ + if has_credentials {
        "id_token present (from `mcpg cloud login`)"@
    } else {
        "none \u{2014} loopback CP only (run `mcpg cloud login --issuer <url>` for managed)"@
    })
}

/// What `whoami` prints about the stored credentials.
pub fn credentials_report(has_credentials: bool) -> (r: String)
    ensures
        r@ == credentials_text(has_credentials),
{
    let mut s = "credentials: ".to_owned();
    if has_credentials {
        s.append("id_token present (from `mcpg cloud login`)");
    } else {
        s.append("none \u{2014} loopback CP only (run `mcpg cloud login --issuer <url>` for managed)");
    }
    s.append("\n");
    s
}

/// An org the login can act on.
pub struct OrgView {
    pub slug: String,
    pub name: String,
    pub plan_tier: String,
    pub status: String,
}

/// One org: slug, plan, name, and its status unless it is active (or unset).
pub open spec fn org_row(o: OrgView) -> Seq<char> {
    line("  "@ + pad_right(o.slug@, 42) + "  "@ + o.plan_tier@ + "  ("@ + o.name@ + ")"@ + if o.status@.len()
        == 0 || o.status@ == "active"@ {
        seq![]
    } else {
        "  ["@ + o.status@ + "]"@
    })
}

/// The org part of `whoami`.
pub open spec fn orgs_text(list: Seq<OrgView>) -> Seq<char> {
    if list.len() == 0 {
        line("orgs: none \u{2014} your first publish/login onboards one automatically"@)
    } else {
        line("orgs ("@ + decimal(list.len()) + " \u{2014} pass the slug as --org):"@) + concat_map(
            list,
            |o: OrgView| org_row(o),
        )
    }
}

/// Law: an org's status is shown, as `  [<status>]` at the end of its row,
/// unless it is `active`; an active org prints as one with no status.
pub proof fn law_org_status_shown_unless_active(o: OrgView, status: String)
    ensures
        o.status@.len() == 0 && status@.len() > 0 && status@ != "active"@ ==> org_row(
            (OrgView { slug: o.slug, name: o.name, plan_tier: o.plan_tier, status: status }),
        ) == org_row(o).drop_last() + "  ["@ + status@ + "]"@ + "\n"@,
        o.status@.len() == 0 && status@ == "active"@ ==> org_row(
            (OrgView { slug: o.slug, name: o.name, plan_tier: o.plan_tier, status: status }),
        ) == org_row(o),
{
    let base = "  "@ + pad_right(o.slug@, 42) + "  "@ + o.plan_tier@ + "  ("@ + o.name@ + ")"@;
    if o.status@.len() == 0 {
        assert(org_row(o) =~= base + "\n"@);
        reveal_strlit("\n");
        assert((base + "\n"@).drop_last() =~= base);
        if status@.len() > 0 && status@ != "active"@ {
            let with = OrgView { slug: o.slug, name: o.name, plan_tier: o.plan_tier, status: status };
            assert(org_row(with) =~= base + "  ["@ + status@ + "]"@ + "\n"@);
        }
    }
}

/// Law: the org list opens with the number of orgs, and one more org adds
/// exactly its row at the end, the rows before it unchanged.
pub proof fn law_orgs_counted_and_listed(list: Seq<OrgView>, o: OrgView)
    ensures
        list.len() > 0 ==> exists|rest: Seq<char>|
            orgs_text(list) == #[trigger] ("orgs ("@ + decimal(list.len()) + rest),
        list.len() > 0 ==> exists|h1: Seq<char>, h2: Seq<char>, rows: Seq<char>|
            #![trigger line(h1).add(rows), line(h2)]
            orgs_text(list) == line(h1).add(rows) && orgs_text(list.push(o)) == line(h2) + rows
                + org_row(o),
{
    if list.len() > 0 {
        let f = |o: OrgView| org_row(o);
        let tail = " \u{2014} pass the slug as --org):"@;
        let h1 = "orgs ("@ + decimal(list.len()) + tail;
        let h2 = "orgs ("@ + decimal(list.push(o).len()) + tail;
        let rows = concat_map(list, f);
        assert(orgs_text(list) =~= "orgs ("@ + decimal(list.len()) + (tail + "\n"@ + rows));
        assert(list.push(o).drop_last() =~= list);
        assert(list.push(o).last() == o);
        assert(orgs_text(list) == line(h1).add(rows));
        assert(orgs_text(list.push(o)) =~= line(h2) + rows + org_row(o));
    }
}

fn org_row_report(o: &OrgView) -> (r: String)
    ensures
        r@ == org_row(*o),
{
    let mut s = "  ".to_owned();
    append_padded(&mut s, o.slug.as_str(), 42);
    s.append("  ");
    s.append(o.plan_tier.as_str());
    s.append("  (");
    s.append(o.name.as_str());
    s.append(")");
    if !(o.status.as_str().unicode_len() == 0 || is_text(&o.status, "active")) {
        s.append("  [");
        s.append(o.status.as_str());
        s.append("]");
    }
    s.append("\n");
    assert(s@ =~= org_row(*o));
    s
}

/// What `whoami` prints for the orgs the login can act on.
pub fn orgs_report(list: &Vec<OrgView>) -> (r: String)
    ensures
        r@ == orgs_text(list@),
{
    if list.len() == 0 {
        let mut s = "orgs: none \u{2014} your first publish/login onboards one automatically".to_owned();
        s.append("\n");
        return s;
    }
    let ghost f = |o: OrgView| org_row(o);
    let mut s = "orgs (".to_owned();
    s.append(u64_text(list.len() as u64).as_str());
    s.append(" \u{2014} pass the slug as --org):");
    s.append("\n");
    let ghost head = s@;
    let mut i: usize = 0;
    assert(list@.take(0) =~= Seq::<OrgView>::empty());
    while i < list.len()
        invariant
            i <= list@.len(),
            f == (|o: OrgView| org_row(o)),
            s@ == head + concat_map(list@.take(i as int), f),
        decreases list@.len() - i,
    {
        let row = org_row_report(&list[i]);
        s.append(row.as_str());
        proof {
            lemma_concat_map_step(list@, f, i as int);
            assert(s@ =~= head + concat_map(list@.take(i + 1), f));
        }
        i = i + 1;
    }
    proof {
        lemma_take_all(list@);
    }
    s
}

// ---------------------------------------------------------------- instances

/// The rows of one instance: uid, state, version (with the release it can
/// move to), first endpoint (or `-`), then a redeploy hint when an update is
/// available and when it was last seen, if known.
pub open spec fn instance_rows(i: InstanceView) -> Seq<char> {
    let endpoint = if i.addressable@.len() > 0 {
        i.addressable@[0]@
    } else {
        "-"@
    };
    let version = match i.update_available {
        Some(target) => i.version@ + " \u{2192} "@ + target@,
        None => i.version@,
    };
    line(pad_right(i.instance_uid@, 38) + "  "@ + pad_right(i.state@, 10) + "  "@ + pad_right(
        version,
        18,
    ) + "  "@ + endpoint) + (if i.update_available is Some {
        line(pad_right(seq![], 38) + "  "@ + pad_right(seq![], 10)
            + "  update available \u{2014} `mcpg cloud redeploy <name>` to adopt"@)
    } else {
        seq![]
    }) + match i.last_seen_at {
        Some(seen) => line(pad_right(seq![], 38) + "  "@ + pad_right(seq![], 10) + "  last seen "@
            + seen@),
        None => seq![],
    }
}

/// Law: knowing when an instance was last seen adds exactly one line to its
/// rows, `last seen <time>` under the uid and state columns, whether or not
/// an update is available.
pub proof fn law_last_seen_adds_one_line(i: InstanceView, seen: String)
    ensures
        instance_rows(
            (InstanceView {
                instance_uid: i.instance_uid,
                state: i.state,
                version: i.version,
                update_available: i.update_available,
                addressable: i.addressable,
                last_seen_at: Some(seen),
            }),
        ) == instance_rows(
            (InstanceView {
                instance_uid: i.instance_uid,
                state: i.state,
                version: i.version,
                update_available: i.update_available,
                addressable: i.addressable,
                last_seen_at: None,
            }),
        ) + line(pad_right(seq![], 38) + "  "@ + pad_right(seq![], 10) + "  last seen "@ + seen@),
{
}

/// The `instances` listing.
pub open spec fn instances_text(org: Seq<char>, list: Seq<InstanceView>) -> Seq<char> {
    if list.len() == 0 {
        line("(no instances in org "@ + org + " \u{2014} `mcpg cloud publish` to create one)"@)
    } else {
        line(pad_right("INSTANCE_UID"@, 38) + "  "@ + pad_right("STATE"@, 10) + "  "@ + pad_right(
            "VERSION"@,
            18,
        ) + "  ENDPOINT"@) + concat_map(list, |i: InstanceView| instance_rows(i))
    }
}

fn instance_report_rows(inst: &InstanceView) -> (r: String)
    ensures
        r@ == instance_rows(*inst),
{
    let mut version = inst.version.clone();
    match &inst.update_available {
        Some(target) => {
            version.append(" \u{2192} ");
            version.append(target.as_str());
        },
        None => {},
    }
    let mut s = String::new();
    append_padded(&mut s, inst.instance_uid.as_str(), 38);
    s.append("  ");
    append_padded(&mut s, inst.state.as_str(), 10);
    s.append("  ");
    append_padded(&mut s, version.as_str(), 18);
    s.append("  ");
    if inst.addressable.len() > 0 {
        s.append(inst.addressable[0].as_str());
    } else {
        s.append("-");
    }
    s.append("\n");
    if inst.update_available.is_some() {
        append_padded(&mut s, "", 38);
        s.append("  ");
        append_padded(&mut s, "", 10);
        s.append("  update available \u{2014} `mcpg cloud redeploy <name>` to adopt");
        s.append("\n");
    }
    match &inst.last_seen_at {
        Some(seen) => {
            append_padded(&mut s, "", 38);
            s.append("  ");
            append_padded(&mut s, "", 10);
            s.append("  last seen ");
            s.append(seen.as_str());
            s.append("\n");
        },
        None => {},
    }
    proof {
        reveal_strlit("");
    }
    assert(s@ =~= instance_rows(*inst));
    s
}

/// Law: an available update adds exactly one line, the redeploy hint, right
/// after the instance's first row; the rows after it are the same.
pub proof fn law_update_hint_follows_first_row(i: InstanceView, target: String)
    ensures
        i.update_available is None ==> exists|first_with: Seq<char>, first_without: Seq<char>, rest: Seq<char>|
            #![trigger line(first_with), line(first_without).add(rest)]
            instance_rows(
                (InstanceView {
                    instance_uid: i.instance_uid,
                    state: i.state,
                    version: i.version,
                    update_available: Some(target),
                    addressable: i.addressable,
                    last_seen_at: i.last_seen_at,
                }),
            ) == line(first_with) + line(
                pad_right(seq![], 38) + "  "@ + pad_right(seq![], 10)
                    + "  update available \u{2014} `mcpg cloud redeploy <name>` to adopt"@,
            ) + rest && instance_rows(i) == line(first_without).add(rest),
{
    if i.update_available is None {
        let with = InstanceView {
            instance_uid: i.instance_uid,
            state: i.state,
            version: i.version,
            update_available: Some(target),
            addressable: i.addressable,
            last_seen_at: i.last_seen_at,
        };
        let endpoint = if i.addressable@.len() > 0 {
            i.addressable@[0]@
        } else {
            "-"@
        };
        let first_with = pad_right(i.instance_uid@, 38) + "  "@ + pad_right(i.state@, 10) + "  "@
            + pad_right(i.version@ + " \u{2192} "@ + target@, 18) + "  "@ + endpoint;
        let first_without = pad_right(i.instance_uid@, 38) + "  "@ + pad_right(i.state@, 10) + "  "@
            + pad_right(i.version@, 18) + "  "@ + endpoint;
        let rest: Seq<char> = match i.last_seen_at {
            Some(seen) => line(pad_right(seq![], 38) + "  "@ + pad_right(seq![], 10) + "  last seen "@
                + seen@),
            None => seq![],
        };
        let hint = line(
            pad_right(seq![], 38) + "  "@ + pad_right(seq![], 10)
                + "  update available \u{2014} `mcpg cloud redeploy <name>` to adopt"@,
        );
        assert(instance_rows(with) =~= line(first_with) + hint + rest);
        assert(instance_rows(i) =~= line(first_without) + rest);
    }
}

/// Law: listing one more instance adds exactly its rows at the end.
pub proof fn law_instances_list_every_instance(org: Seq<char>, list: Seq<InstanceView>, i: InstanceView)
    ensures
        list.len() > 0 ==> instances_text(org, list.push(i)) == instances_text(org, list)
            + instance_rows(i),
{
    lemma_listing_push(
        line(pad_right("INSTANCE_UID"@, 38) + "  "@ + pad_right("STATE"@, 10) + "  "@ + pad_right(
            "VERSION"@,
            18,
        ) + "  ENDPOINT"@),
        list,
        i,
        |i: InstanceView| instance_rows(i),
    );
}

/// What `instances` prints for the org's running gateways.
pub fn instances_report(org: &str, list: &Vec<InstanceView>) -> (r: String)
    ensures
        r@ == instances_text(org@, list@),
{
    if list.len() == 0 {
        let mut s = "(no instances in org ".to_owned();
        s.append(org);
        s.append(" \u{2014} `mcpg cloud publish` to create one)");
        s.append("\n");
        return s;
    }
    let ghost f = |i: InstanceView| instance_rows(i);
    let mut s = String::new();
    append_padded(&mut s, "INSTANCE_UID", 38);
    s.append("  ");
    append_padded(&mut s, "STATE", 10);
    s.append("  ");
    append_padded(&mut s, "VERSION", 18);
    s.append("  ENDPOINT");
    s.append("\n");
    let ghost head = s@;
    let mut i: usize = 0;
    assert(list@.take(0) =~= Seq::<InstanceView>::empty());
    while i < list.len()
        invariant
            i <= list@.len(),
            f == (|i: InstanceView| instance_rows(i)),
            s@ == head + concat_map(list@.take(i as int), f),
        decreases list@.len() - i,
    {
        let rows = instance_report_rows(&list[i]);
        s.append(rows.as_str());
        proof {
            lemma_concat_map_step(list@, f, i as int);
            assert(s@ =~= head + concat_map(list@.take(i + 1), f));
        }
        i = i + 1;
    }
    proof {
        lemma_take_all(list@);
    }
    s
}

// ---------------------------------------------------------------- context

/// A stored coordinate, or `(unset)`.
pub open spec fn setting(o: Option<String>) -> Seq<char> {
    or_text(o, "(unset)"@)
}

/// What `use` prints when given no coordinate: the stored context.
pub open spec fn context_text(path: Seq<char>, ctx: Context) -> Seq<char> {
    line("context ("@ + path + "):"@) + line("  org:       "@ + setting(ctx.org)) + line(
        "  workspace: "@ + setting(ctx.workspace),
    ) + line("  env:       "@ + setting(ctx.env))
}

/// The stored context, as `use` shows it.
pub fn context_report(path: &str, ctx: &Context) -> (r: String)
    ensures
        r@ == context_text(path@, *ctx),
{
    let mut s = "context (".to_owned();
    s.append(path);
    s.append("):");
    s.append("\n");
    s.append("  org:       ");
    append_or(&mut s, &ctx.org, "(unset)");
    s.append("\n");
    s.append("  workspace: ");
    append_or(&mut s, &ctx.workspace, "(unset)");
    s.append("\n");
    s.append("  env:       ");
    append_or(&mut s, &ctx.env, "(unset)");
    s.append("\n");
    assert(s@ =~= context_text(path@, *ctx));
    s
}

/// What `use` prints after storing a context.
pub open spec fn context_set_text(ctx: Context) -> Seq<char> {
    line("\u{2713} context set: org="@ + setting(ctx.org) + " workspace="@ + setting(ctx.workspace)
        + " env="@ + setting(ctx.env))
}

/// The confirmation `use` prints after storing a context.
pub fn context_set_report(ctx: &Context) -> (r: String)
    ensures
        r@ == context_set_text(*ctx),
{
    let mut s = "\u{2713} context set: org=".to_owned();
    append_or(&mut s, &ctx.org, "(unset)");
    s.append(" workspace=");
    append_or(&mut s, &ctx.workspace, "(unset)");
    s.append(" env=");
    append_or(&mut s, &ctx.env, "(unset)");
    s.append("\n");
    assert(s@ =~= context_set_text(*ctx));
    s
}

// ---------------------------------------------------------------- errors

/// The error of a redeploy with nothing to redeploy.
pub fn no_versions_error(name: &str) -> (r: String)
    ensures
        r@ == "'"@ + name@ + "' has no published config versions to redeploy"@,
{
    let mut s = "'".to_owned();
    s.append(name);
    s.append("' has no published config versions to redeploy");
    s
}

/// A name that did not resolve, with the org it was looked up in.
pub fn unresolved_name_error(e: &NameError, org: &str) -> (r: String)
    ensures
        r@ == e.message_text() + " (org "@ + org@ + ")"@,
{
    let mut s = e.message();
    s.append(" (org ");
    s.append(org);
    s.append(")");
    s
}

} // verus!
