//! Resolving a published gateway name to its instance uid. An instance is
//! addressed as `https://<name>.<zone>/...`, so a name matches an instance
//! when one of its endpoints has a host that starts with `<name>.`; names are
//! unique, so exactly one instance has to match.

use vstd::prelude::*;
use crate::text::{has_prefix, u64_text, decimal};

verus! {

/// A running gateway as the control plane lists it (timestamps already
/// rendered as RFC 3339 text).
pub struct InstanceView {
    pub instance_uid: String,
    pub state: String,
    pub version: String,
    pub update_available: Option<String>,
    pub addressable: Vec<String>,
    pub last_seen_at: Option<String>,
}

/// The host part of a URL as the `url` crate parses it (`None` when the text
/// is no URL or the URL has no host).
pub uninterp spec fn url_host(url: Seq<char>) -> Option<Seq<char>>;

/// Host of an endpoint URL: `url::Url::parse`, then `Url::host_str`.
/// Claims only that the result is the crate's parse of `endpoint`, named
/// [`url_host`]; what that parse accepts is left to the `url` crate.
#[verifier::external_body]
fn endpoint_host(endpoint: &str) -> (r: Option<String>)
    ensures
        r.deep_view() == url_host(endpoint@),
{
    url::Url::parse(endpoint).ok().and_then(|u| u.host_str().map(|h| h.to_owned()))
}

/// A parsed host names `name` when it starts with the label `name.`.
pub open spec fn host_names(host: Option<Seq<char>>, name: Seq<char>) -> bool {
    host matches Some(h) && (name + "."@).is_prefix_of(h)
}

/// Whether an instance with these parsed endpoint hosts is the one named `name`.
pub open spec fn hosts_name(hosts: Seq<Option<Seq<char>>>, name: Seq<char>) -> bool {
    exists|k: int| 0 <= k < hosts.len() && host_names(#[trigger] hosts[k], name)
}

/// Per instance, whether it carries `name`.
pub open spec fn hits(hosts: Seq<Seq<Option<Seq<char>>>>, name: Seq<char>) -> Seq<bool> {
    Seq::new(hosts.len(), |i: int| hosts_name(hosts[i], name))
}

/// How many entries are true.
pub open spec fn count_true(s: Seq<bool>) -> nat
    decreases s.len(),
{
    if s.len() == 0 {
        0
    } else {
        count_true(s.drop_last()) + if s.last() {
            1nat
        } else {
            0nat
        }
    }
}

/// The position of the first true entry.
pub open spec fn first_true(s: Seq<bool>) -> Option<int>
    decreases s.len(),
{
    if s.len() == 0 {
        None
    } else {
        match first_true(s.drop_last()) {
            Some(k) => Some(k),
            None => if s.last() {
                Some(s.len() - 1)
            } else {
                None
            },
        }
    }
}

/// Why a name did not resolve.
pub enum NameError {
    /// No instance carries the name.
    NotFound { name: String },
    /// Several instances carry it.
    Ambiguous { name: String, count: usize },
}

/// The outcome of resolving `name` among instances with the given uids and
/// parsed endpoint hosts: the uid of the single match, or the number of
/// matches (0 or more than one).
pub open spec fn name_outcome(
    uids: Seq<Seq<char>>,
    hosts: Seq<Seq<Option<Seq<char>>>>,
    name: Seq<char>,
) -> Result<Seq<char>, nat> {
    let h = hits(hosts, name);
    if count_true(h) == 1 {
        Ok(uids[first_true(h)->0])
    } else {
        Err(count_true(h))
    }
}

/// The abstract outcome of a resolution result.
pub open spec fn outcome_of(r: Result<String, NameError>) -> Result<Seq<char>, nat> {
    match r {
        Ok(u) => Ok(u@),
        Err(NameError::NotFound { .. }) => Err(0),
        Err(NameError::Ambiguous { count, .. }) => Err(count as nat),
    }
}

/// The uids of a list of instances.
pub open spec fn uids_of(list: Seq<InstanceView>) -> Seq<Seq<char>> {
    Seq::new(list.len(), |i: int| list[i].instance_uid@)
}

/// The parsed hosts of every endpoint of every instance.
pub open spec fn parsed_hosts(list: Seq<InstanceView>) -> Seq<Seq<Option<Seq<char>>>> {
    Seq::new(
        list.len(),
        |i: int| Seq::new(list[i].addressable@.len(), |k: int| url_host(list[i].addressable@[k]@)),
    )
}

proof fn lemma_count_first(s: Seq<bool>)
    ensures
        count_true(s) == 0 <==> first_true(s) is None,
        first_true(s) matches Some(f) ==> 0 <= f < s.len() && s[f] && forall|g: int|
            0 <= g < f ==> !s[g],
        first_true(s) is None ==> forall|g: int| 0 <= g < s.len() ==> !s[g],
        count_true(s) <= s.len(),
        forall|g: int| 0 <= g < s.len() && s[g] && count_true(s) == 1 ==> first_true(s) == Some(g),
    decreases s.len(),
{
    if s.len() > 0 {
        let t = s.drop_last();
        lemma_count_first(t);
        assert(forall|g: int| 0 <= g < t.len() ==> t[g] == s[g]);
        assert forall|g: int| 0 <= g < s.len() && s[g] && count_true(s) == 1 implies first_true(
            s,
        ) == Some(g) by {
            if g < s.len() - 1 {
                assert(t[g]);
                if s.last() {
                    assert(count_true(t) >= 1) by {
                        if count_true(t) == 0 {
                            assert(first_true(t) is None);
                        }
                    }
                }
            }
        }
    }
}

/// The positions of the true entries, in increasing order.
spec fn true_indices(s: Seq<bool>) -> Seq<int>
    decreases s.len(),
{
    if s.len() == 0 {
        seq![]
    } else if s.last() {
        true_indices(s.drop_last()).push(s.len() - 1)
    } else {
        true_indices(s.drop_last())
    }
}

proof fn lemma_true_indices(s: Seq<bool>)
    ensures
        true_indices(s).len() == count_true(s),
        forall|j: int|
            0 <= j < true_indices(s).len() ==> 0 <= #[trigger] true_indices(s)[j] < s.len()
                && s[true_indices(s)[j]],
        forall|j: int, k: int|
            0 <= j < k < true_indices(s).len() ==> #[trigger] true_indices(s)[j]
                < #[trigger] true_indices(s)[k],
        forall|g: int|
            0 <= g < s.len() && #[trigger] s[g] ==> exists|j: int|
                0 <= j < true_indices(s).len() && #[trigger] true_indices(s)[j] == g,
    decreases s.len(),
{
    if s.len() > 0 {
        let t = s.drop_last();
        lemma_true_indices(t);
        let p = true_indices(t);
        let q = true_indices(s);
        assert forall|j: int| 0 <= j < p.len() implies #[trigger] q[j] == p[j] && p[j] < s.len() - 1 && s[p[j]] by {
            assert(t[p[j]] == s[p[j]]);
        }
        assert forall|g: int| 0 <= g < s.len() && #[trigger] s[g] implies exists|j: int|
            0 <= j < q.len() && #[trigger] q[j] == g by {
            if g < s.len() - 1 {
                assert(t[g]);
                let j = choose|j: int| 0 <= j < p.len() && #[trigger] p[j] == g;
                assert(q[j] == g);
            } else {
                assert(q[q.len() - 1] == g);
            }
        }
    }
}

/// Law: a name resolves by counting instances, not endpoints. When exactly
/// one instance has an endpoint whose host starts with `<name>.`, resolution
/// gives that instance's uid, however many of its endpoints match; when none
/// does, it reports no match; a resolved uid always belongs to the only
/// matching instance; and an unresolved name reports as many matches as there
/// are matching instances (listed, each once, by `p`).
pub proof fn law_name_resolution_counts_instances(
    uids: Seq<Seq<char>>,
    hosts: Seq<Seq<Option<Seq<char>>>>,
    name: Seq<char>,
)
    requires
        uids.len() == hosts.len(),
    ensures
        forall|i: int|
            0 <= i < hosts.len() && #[trigger] hosts_name(hosts[i], name) && (forall|j: int|
                0 <= j < hosts.len() && j != i ==> !hosts_name(#[trigger] hosts[j], name))
                ==> name_outcome(uids, hosts, name) == Ok::<Seq<char>, nat>(uids[i]),
        (forall|j: int| 0 <= j < hosts.len() ==> !hosts_name(#[trigger] hosts[j], name))
            ==> name_outcome(uids, hosts, name) == Err::<Seq<char>, nat>(0),
        name_outcome(uids, hosts, name) matches Ok(u) ==> exists|i: int|
            0 <= i < hosts.len() && #[trigger] hosts_name(hosts[i], name) && u == uids[i] && (
            forall|j: int| 0 <= j < hosts.len() && j != i ==> !hosts_name(#[trigger] hosts[j], name)),
        name_outcome(uids, hosts, name) matches Err(c) ==> exists|p: Seq<int>|
            #[trigger] p.len() == c && (forall|j: int, k: int|
                0 <= j < k < p.len() ==> #[trigger] p[j] < #[trigger] p[k]) && (forall|j: int|
                0 <= j < p.len() ==> 0 <= #[trigger] p[j] < hosts.len() && hosts_name(hosts[p[j]], name))
                && (forall|i: int|
                0 <= i < hosts.len() && #[trigger] hosts_name(hosts[i], name) ==> exists|j: int|
                    0 <= j < p.len() && #[trigger] p[j] == i),
{
    let h = hits(hosts, name);
    lemma_count_first(h);
    lemma_true_indices(h);
    let ti = true_indices(h);
    assert forall|i: int| 0 <= i < hosts.len() implies #[trigger] h[i] == hosts_name(hosts[i], name) by {}
    assert forall|i: int|
        0 <= i < hosts.len() && #[trigger] hosts_name(hosts[i], name) && (forall|j: int|
            0 <= j < hosts.len() && j != i ==> !hosts_name(#[trigger] hosts[j], name))
        implies name_outcome(uids, hosts, name) == Ok::<Seq<char>, nat>(uids[i]) by {
        assert(h[i]);
        assert(exists|j: int| 0 <= j < ti.len() && #[trigger] ti[j] == i);
        assert forall|j: int| 0 <= j < ti.len() implies #[trigger] ti[j] == i by {
            let g = ti[j];
            assert(h[g]);
        }
        if ti.len() > 1 {
            assert(ti[0] < ti[1]);
        }
        assert(count_true(h) == 1);
    }
    if forall|j: int| 0 <= j < hosts.len() ==> !hosts_name(#[trigger] hosts[j], name) {
        if ti.len() > 0 {
            let g = ti[0];
            assert(h[g]);
        }
    }
    if count_true(h) == 1 {
        let f = first_true(h)->0;
        assert(h[f]);
        assert forall|j: int| 0 <= j < hosts.len() && j != f implies !hosts_name(#[trigger] hosts[j], name) by {
            if hosts_name(hosts[j], name) {
                assert(h[j]);
                // `ti` has one entry, and it is both `j` and `f`.
                assert(exists|x: int| 0 <= x < ti.len() && #[trigger] ti[x] == j);
                assert(exists|x: int| 0 <= x < ti.len() && #[trigger] ti[x] == f);
            }
        }
        assert(hosts_name(hosts[f], name));
    } else {
        assert forall|i: int|
            0 <= i < hosts.len() && #[trigger] hosts_name(hosts[i], name) implies exists|j: int|
                0 <= j < ti.len() && #[trigger] ti[j] == i by {
            assert(h[i]);
        }
        assert(ti.len() == count_true(h));
    }
}

/// Resolve `name` among `list`, given the parsed host of every endpoint
/// (`hosts[i][k]` for `list[i].addressable[k]`).
pub fn match_name_in(
    list: &Vec<InstanceView>,
    hosts: &Vec<Vec<Option<String>>>,
    name: &str,
) -> (r: Result<String, NameError>)
    requires
        hosts@.len() == list@.len(),
    ensures
        outcome_of(r) == name_outcome(
            uids_of(list@),
            Seq::new(hosts@.len(), |i: int| hosts@[i].deep_view()),
            name@,
        ),
        r matches Ok(u) ==> forall|i: int|
            0 <= i < list@.len() && hosts_name(hosts@[i].deep_view(), name@) ==> u@
                == list@[i].instance_uid@,
        (r matches Err(NameError::NotFound { .. })) <==> count_true(
            hits(Seq::new(hosts@.len(), |i: int| hosts@[i].deep_view()), name@),
        ) == 0,
        r matches Err(NameError::Ambiguous { count, .. }) ==> count >= 2,
        r matches Err(e) ==> match e {
            NameError::NotFound { name: n } => n@ == name@,
            NameError::Ambiguous { name: n, .. } => n@ == name@,
        },
{
    let ghost hv = Seq::new(hosts@.len(), |i: int| hosts@[i].deep_view());
    let ghost h = hits(hv, name@);
    let mut needle = name.to_owned();
    needle.append(".");
    let mut count: usize = 0;
    let mut first: usize = 0;
    let mut i: usize = 0;
    while i < hosts.len()
        invariant
            hosts@.len() == list@.len(),
            hv == Seq::new(hosts@.len(), |i: int| hosts@[i].deep_view()),
            h == hits(hv, name@),
            needle@ == name@ + "."@,
            i <= hosts@.len(),
            count == count_true(h.take(i as int)),
            count <= i,
            count > 0 ==> first_true(h.take(i as int)) == Some(first as int),
            count == 0 ==> first_true(h.take(i as int)) is None,
        decreases hosts@.len() - i,
    {
        let eps = &hosts[i];
        let mut hit = false;
        let mut k: usize = 0;
        while k < eps.len()
            invariant
                eps.deep_view() == hv[i as int],
                needle@ == name@ + "."@,
                k <= eps@.len(),
                hit == exists|x: int| 0 <= x < k && host_names(#[trigger] hv[i as int][x], name@),
            decreases eps@.len() - k,
        {
            match &eps[k] {
                Some(host) => {
                    if has_prefix(host.as_str(), needle.as_str()) {
                        hit = true;
                    }
                },
                None => {},
            }
            assert(hv[i as int][k as int] == eps@[k as int].deep_view());
            k = k + 1;
        }
        assert(hit == h[i as int]);
        assert(h.take(i + 1).drop_last() =~= h.take(i as int));
        if hit {
            if count == 0 {
                first = i;
            }
            count = count + 1;
        }
        i = i + 1;
    }
    assert(h.take(i as int) =~= h);
    proof {
        lemma_count_first(h);
    }
    if count == 1 {
        assert(uids_of(list@)[first as int] == list@[first as int].instance_uid@);
        assert forall|x: int|
            0 <= x < list@.len() && hosts_name(hosts@[x].deep_view(), name@) implies list@[first as int].instance_uid@
            == list@[x].instance_uid@ by {
            assert(hv[x] == hosts@[x].deep_view());
            assert(h[x]);
        }
        Ok(list[first].instance_uid.clone())
    } else if count == 0 {
        Err(NameError::NotFound { name: name.to_owned() })
    } else {
        Err(NameError::Ambiguous { name: name.to_owned(), count })
    }
}

/// Resolve a published gateway name to its instance uid among `list`.
pub fn match_name(list: &Vec<InstanceView>, name: &str) -> (r: Result<String, NameError>)
    ensures
        outcome_of(r) == name_outcome(uids_of(list@), parsed_hosts(list@), name@),
        (r matches Err(NameError::NotFound { .. })) <==> count_true(
            hits(parsed_hosts(list@), name@),
        ) == 0,
        r matches Err(NameError::Ambiguous { count, .. }) ==> count >= 2,
        r matches Err(e) ==> match e {
            NameError::NotFound { name: n } => n@ == name@,
            NameError::Ambiguous { name: n, .. } => n@ == name@,
        },
{
    let mut hosts: Vec<Vec<Option<String>>> = Vec::new();
    let mut i: usize = 0;
    while i < list.len()
        invariant
            i <= list@.len(),
            hosts@.len() == i,
            forall|x: int| 0 <= x < i ==> #[trigger] hosts@[x].deep_view() == parsed_hosts(list@)[x],
        decreases list@.len() - i,
    {
        let eps = &list[i].addressable;
        let mut row: Vec<Option<String>> = Vec::new();
        let mut k: usize = 0;
        while k < eps.len()
            invariant
                eps@ == list@[i as int].addressable@,
                k <= eps@.len(),
                row@.len() == k,
                forall|y: int| 0 <= y < k ==> #[trigger] row@[y].deep_view() == url_host(eps@[y]@),
            decreases eps@.len() - k,
        {
            row.push(endpoint_host(eps[k].as_str()));
            k = k + 1;
        }
        assert(row.deep_view() =~= parsed_hosts(list@)[i as int]);
        hosts.push(row);
        i = i + 1;
    }
    assert(Seq::new(hosts@.len(), |i: int| hosts@[i].deep_view()) =~= parsed_hosts(list@));
    match_name_in(list, &hosts, name)
}

impl NameError {
    /// The text shown for an unresolved name.
    pub open spec fn message_text(&self) -> Seq<char> {
        match self {
            NameError::NotFound { name } => "no instance named `"@ + name@
                + "` found \u{2014} names resolve via the published endpoint, so an instance that never reached READY must be deleted by uid (`mcpg cloud instances` lists uids)"@,
            NameError::Ambiguous { name, count } => decimal(*count as nat) + " instances match `"@
                + name@ + "` \u{2014} delete by uid instead (`mcpg cloud instances`)"@,
        }
    }

    /// The text shown for an unresolved name.
    pub fn message(&self) -> (r: String)
        ensures
            r@ == self.message_text(),
    {
        match self {
            NameError::NotFound { name } => {
                let mut s = "no instance named `".to_owned();
                s.append(name.as_str());
                s.append("` found \u{2014} names resolve via the published endpoint, so an instance that never reached READY must be deleted by uid (`mcpg cloud instances` lists uids)");
                s
            },
            NameError::Ambiguous { name, count } => {
                let mut s = u64_text(*count as u64);
                s.append(" instances match `");
                s.append(name.as_str());
                s.append("` \u{2014} delete by uid instead (`mcpg cloud instances`)");
                s
            },
        }
    }
}

} // verus!
