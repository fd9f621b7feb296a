//! What `delete` is pointed at: instance uids are UUIDs, published names are
//! DNS slugs that never parse as one.

use vstd::prelude::*;

verus! {

/// An ASCII hexadecimal digit, either case.
pub open spec fn is_hex(c: char) -> bool {
    ('0' <= c && c <= '9') || ('a' <= c && c <= 'f') || ('A' <= c && c <= 'F')
}

/// 32 hex digits: `67e5504410b1426f9247bb680e5fe0c8`.
pub open spec fn is_simple_uuid(s: Seq<char>) -> bool {
    s.len() == 32 && forall|i: int| 0 <= i < 32 ==> is_hex(#[trigger] s[i])
}

/// Hex digits in groups of 8-4-4-4-12 joined by hyphens:
/// `67e55044-10b1-426f-9247-bb680e5fe0c8`.
pub open spec fn is_hyphenated_uuid(s: Seq<char>) -> bool {
    &&& s.len() == 36
    &&& forall|i: int|
        0 <= i < 36 ==> if i == 8 || i == 13 || i == 18 || i == 23 {
            #[trigger] s[i] == '-'
        } else {
            is_hex(s[i])
        }
}

/// `c` equals the lower-case letter or symbol `l`, ignoring ASCII case.
pub open spec fn same_ignoring_case(c: char, l: char) -> bool {
    c == l || ('a' <= l && l <= 'z' && c as int == l as int - 32)
}

/// The texts the `uuid` crate parses as a UUID: simple, hyphenated, braced
/// (`{...}` around a hyphenated one) and URN (`urn:uuid:` in any case before
/// a hyphenated one).
pub open spec fn uuid_text(s: Seq<char>) -> bool {
    ||| is_simple_uuid(s)
    ||| is_hyphenated_uuid(s)
    ||| (s.len() == 38 && s[0] == '{' && s[37] == '}' && is_hyphenated_uuid(s.subrange(1, 37)))
    ||| (s.len() == 45 && (forall|i: int|
        0 <= i < 9 ==> same_ignoring_case(#[trigger] s[i], seq!['u', 'r', 'n', ':', 'u', 'u', 'i', 'd', ':'][i]))
        && is_hyphenated_uuid(s.subrange(9, 45)))
}

/// Law: a published name is never taken for an instance uid. Text without
/// `:` or `{` that holds a character other than a hex digit or `-` (as
/// every DNS slug with a letter past `f` does) does not parse as a UUID.
pub proof fn law_slug_is_no_uuid(s: Seq<char>, k: int)
    requires
        0 <= k < s.len(),
        !is_hex(s[k]) && s[k] != '-',
        forall|i: int| 0 <= i < s.len() ==> #[trigger] s[i] != ':' && s[i] != '{',
    ensures
        !uuid_text(s),
{
    if s.len() == 36 {
        assert(!is_hyphenated_uuid(s)) by {
            if k == 8 || k == 13 || k == 18 || k == 23 {
                assert(s[k] != '-');
            } else {
                assert(!is_hex(s[k]));
            }
        }
    }
    if s.len() == 45 {
        assert(s[3] != ':');
        assert(!same_ignoring_case(s[3], seq!['u', 'r', 'n', ':', 'u', 'u', 'i', 'd', ':'][3]));
    }
    if s.len() == 38 {
        assert(s[0] != '{');
    }
}

/// `uuid::Uuid::parse_str(s).is_ok()`: whether the crate accepts `s` as a
/// UUID in one of the forms of [`uuid_text`] (its `try_parse` dispatches on
/// the byte length 32, 36, 38 or 45 and then checks hyphen positions and hex
/// digits; every accepted text is ASCII, so bytes and characters agree).
#[verifier::external_body]
fn is_uuid(s: &str) -> (r: bool)
    ensures
        r == uuid_text(s@),
{
    uuid::Uuid::parse_str(s).is_ok()
}

/// The instance a `delete` target designates.
pub enum DeleteTarget {
    /// The target is an instance uid and is used as it is.
    Uid(String),
    /// The target is a published name, still to be resolved to a uid.
    Name(String),
}

/// Classify a `delete` target, given whether it parses as a UUID.
pub fn target_from(target: String, parses_as_uuid: bool) -> (r: DeleteTarget)
    ensures
        parses_as_uuid ==> r == DeleteTarget::Uid(target),
        !parses_as_uuid ==> r == DeleteTarget::Name(target),
{
    if parses_as_uuid {
        DeleteTarget::Uid(target)
    } else {
        DeleteTarget::Name(target)
    }
}

/// Classify a `delete` target: UUID-shaped text is an instance uid,
/// anything else a published name.
pub fn delete_target(target: String) -> (r: DeleteTarget)
    ensures
        uuid_text(target@) ==> r == DeleteTarget::Uid(target),
        !uuid_text(target@) ==> r == DeleteTarget::Name(target),
{
    let parses = is_uuid(target.as_str());
    target_from(target, parses)
}

} // verus!
