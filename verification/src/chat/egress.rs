//! Whether a pane behind the gap could reach a provider.

use vstd::prelude::*;
use vstd::string::*;

use crate::flow::graph::Text;
use crate::text::{chars_of, string_of};

verus! {

/// The host that `reqwest::Url` reads out of an address; none where it is no address or has none.
pub uninterp spec fn url_host(address: Seq<char>) -> Option<Seq<char>>;

/// `reqwest::Url::parse` and `Url::host_str`: the host part of an address as the URL standard
/// reads it, an IPv6 one in its brackets. How an address is read is not said here, only that the
/// same address always gives the same host.
#[verifier::external_body]
fn host_of(address: &str) -> (r: Option<String>)
    ensures
        r is Some <==> url_host(address@) is Some,
        r is Some ==> r->0@ == url_host(address@)->0,
{
    match reqwest::Url::parse(address) {
        Ok(url) => match url.host_str() {
            Some(host) => Some(host.to_string()),
            None => None,
        },
        Err(_) => None,
    }
}

/// `s` without the `[` in front.
pub open spec fn after_brackets(s: Text) -> Text
    decreases s.len(),
{
    if s.len() > 0 && s[0] == '[' {
        after_brackets(s.drop_first())
    } else {
        s
    }
}

/// `s` without the `]` at the end.
pub open spec fn before_brackets(s: Text) -> Text
    decreases s.len(),
{
    if s.len() > 0 && s.last() == ']' {
        before_brackets(s.drop_last())
    } else {
        s
    }
}

/// A host without the brackets around it.
pub open spec fn bare_host(host: Text) -> Text {
    before_brackets(after_brackets(host))
}

/// A host without the brackets around it.
pub fn strip_brackets(host: &str) -> (r: String)
    ensures
        r@ == bare_host(host@),
{
    let a = chars_of(host);
    let mut i: usize = 0;
    assert(host@.skip(0) =~= host@);
    while i < a.len() && a[i] == '['
        invariant
            i <= a@.len(),
            a@ == host@,
            after_brackets(host@) == after_brackets(host@.skip(i as int)),
        decreases a@.len() - i,
    {
        assert(host@.skip(i as int).drop_first() =~= host@.skip(i + 1));
        i += 1;
    }
    let ghost rest = host@.skip(i as int);
    let mut j: usize = a.len();
    assert(rest.take(j - i) =~= rest);
    while j > i && a[j - 1] == ']'
        invariant
            i <= j <= a@.len(),
            a@ == host@,
            rest == host@.skip(i as int),
            before_brackets(rest) == before_brackets(rest.take(j - i)),
        decreases j,
    {
        assert(rest.take(j - i).last() == a@[j - 1]);
        assert(rest.take(j - i).drop_last() =~= rest.take(j - 1 - i));
        j -= 1;
    }
    proof {
        if j > i {
            assert(rest.take(j - i).last() == a@[j - 1]);
        }
        assert(host@.subrange(i as int, j as int) =~= rest.take(j - i));
    }
    string_of(&a, i, j)
}

/// The host to look for on the list of hosts that panes may reach.
pub open spec fn egress_name(address: Text) -> Option<Text> {
    match url_host(address) {
        Some(h) => Some(bare_host(h)),
        None => None,
    }
}

/// The host to look for on the list of hosts that panes may reach; none where the address has
/// none.
pub fn egress_host(base_url: &str) -> (r: Option<String>)
    ensures
        r is Some <==> egress_name(base_url@) is Some,
        r is Some ==> r->0@ == egress_name(base_url@)->0,
{
    match host_of(base_url) {
        Some(h) => Some(strip_brackets(&h)),
        None => None,
    }
}

/// What the provider's card says: an address without a host is on no list.
pub open spec fn reach(has_host: bool, listed: bool) -> Text {
    if has_host && listed {
        "allowed"@
    } else {
        "not-allowlisted"@
    }
}

/// Whether panes can reach the provider at `base_url`; `listed` says whether its host is on the
/// list of hosts that they may reach.
pub fn agent_egress(base_url: &str, listed: bool) -> (r: String)
    ensures
        r@ == reach(url_host(base_url@) is Some, listed),
{
    if egress_host(base_url).is_some() && listed {
        "allowed".to_owned()
    } else {
        "not-allowlisted".to_owned()
    }
}

/// A host is reached under its bare name: the brackets around an address go, and a name without them
/// stays as it is.
pub proof fn law_brackets_are_taken_off(host: Text)
    requires
        host.len() > 0,
        host[0] != '[',
        host.last() != ']',
    ensures
        bare_host(host) == host,
        bare_host(seq!['['] + host + seq![']']) == host,
{
    let wrapped = seq!['['] + host + seq![']'];
    assert(wrapped.drop_first() =~= host + seq![']']);
    assert((host + seq![']'])[0] == host[0]);
    assert(after_brackets(host + seq![']']) == host + seq![']']);
    assert(after_brackets(wrapped) == host + seq![']']);
    assert((host + seq![']']).drop_last() =~= host);
    assert(before_brackets(host) == host);
}

/// A host may be reached exactly where there is one and it is listed.
pub proof fn law_only_listed_hosts_are_reached(has_host: bool, listed: bool)
    ensures
        reach(true, true) == "allowed"@,
        !has_host || !listed ==> reach(has_host, listed) == "not-allowlisted"@,
{
}

}
