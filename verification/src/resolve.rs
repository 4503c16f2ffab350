//! Choosing, among the addresses that a lookup found for a host, those of
//! the wanted address family.

use vstd::prelude::*;

verus! {

/// One address that a lookup found for a host.
#[derive(Debug)]
pub struct ResolvedAddr {
    /// The address as text.
    pub text: String,
    /// Whether it is an IPv6 address; an IPv4 address otherwise.
    pub is_ipv6: bool,
}

/// Why no address could be given for a host.
#[derive(Debug)]
pub enum ResolveError {
    /// The lookup found no address of the wanted family for `host`.
    NotFound { host: String },
}

/// The text that reports a host without an address.
pub open spec fn not_found_message(host: Seq<char>) -> Seq<char> {
    "Could not resolve host: "@ + host
}

impl ResolveError {
    /// The host that the error is about.
    pub open spec fn host(self) -> Seq<char> {
        match self {
            ResolveError::NotFound { host } => host@,
        }
    }

    /// The error as text.
    pub fn message(&self) -> (text: String)
        ensures
            text@ == not_found_message(self.host()),
    {
        match self {
            ResolveError::NotFound { host } => {
                let mut text = "Could not resolve host: ".to_owned();
                vstd::string::StringExecFns::append(&mut text, host.as_str());
                text
            },
        }
    }
}

/// The addresses among `found` of the wanted family, as text and in the
/// order in which the lookup gave them.
pub open spec fn wanted(found: Seq<ResolvedAddr>, force_ipv6: bool) -> Seq<Seq<char>>
    decreases found.len(),
{
    if found.len() == 0 {
        Seq::empty()
    } else if found.last().is_ipv6 == force_ipv6 {
        wanted(found.drop_last(), force_ipv6).push(found.last().text@)
    } else {
        wanted(found.drop_last(), force_ipv6)
    }
}

/// The texts that a list of strings holds.
pub open spec fn texts(list: Seq<String>) -> Seq<Seq<char>> {
    list.map_values(|s: String| s@)
}

/// The addresses of `host` to probe: those among `found` that are IPv6 if
/// `force_ipv6` is set and IPv4 otherwise, in the order of the lookup. A
/// host without any such address is an error.
pub fn resolve_host_ips(host: &str, found: &Vec<ResolvedAddr>, force_ipv6: bool) -> (result:
    Result<Vec<String>, ResolveError>)
    ensures
        match result {
            Ok(ips) => wanted(found@, force_ipv6).len() > 0 && texts(ips@) == wanted(
                found@,
                force_ipv6,
            ),
            Err(error) => wanted(found@, force_ipv6).len() == 0 && error.host() == host@,
        },
{
    let mut ips: Vec<String> = Vec::new();
    let mut i: usize = 0;
    assert(found@.take(0) =~= Seq::empty());
    assert(texts(ips@) =~= Seq::empty());
    while i < found.len()
        invariant
            i <= found.len(),
            texts(ips@) == wanted(found@.take(i as int), force_ipv6),
        decreases found.len() - i,
    {
        assert(found@.take(i as int + 1).drop_last() =~= found@.take(i as int));
        if found[i].is_ipv6 == force_ipv6 {
            let ghost before = ips@;
            ips.push(found[i].text.clone());
            assert(texts(ips@) =~= texts(before).push(found@[i as int].text@));
        }
        i += 1;
    }
    assert(found@.take(i as int) =~= found@);
    if ips.len() == 0 {
        Err(ResolveError::NotFound { host: host.to_owned() })
    } else {
        Ok(ips)
    }
}

/// The address of `host` to probe: the first of the wanted family.
pub fn get_host_ipaddr(host: &str, found: &Vec<ResolvedAddr>, force_ipv6: bool) -> (result:
    Result<String, ResolveError>)
    ensures
        match result {
            Ok(ip) => wanted(found@, force_ipv6).len() > 0 && ip@ == wanted(
                found@,
                force_ipv6,
            )[0],
            Err(error) => wanted(found@, force_ipv6).len() == 0 && error.host() == host@,
        },
{
    match resolve_host_ips(host, found, force_ipv6) {
        Ok(ips) => {
            assert(texts(ips@)[0] == ips@[0]@);
            Ok(ips[0].clone())
        },
        Err(error) => Err(error),
    }
}

/// The addresses of `host` to probe when several are asked for: the first
/// `multiple` of the wanted family, or all of them if there are fewer.
pub fn get_multiple_host_ipaddr(
    host: &str,
    found: &Vec<ResolvedAddr>,
    force_ipv6: bool,
    multiple: usize,
) -> (result: Result<Vec<String>, ResolveError>)
    ensures
        match result {
            Ok(ips) => {
                let all = wanted(found@, force_ipv6);
                &&& all.len() > 0
                &&& texts(ips@) == all.take(
                    if multiple <= all.len() {
                        multiple as int
                    } else {
                        all.len() as int
                    },
                )
            },
            Err(error) => wanted(found@, force_ipv6).len() == 0 && error.host() == host@,
        },
{
    match resolve_host_ips(host, found, force_ipv6) {
        Ok(mut ips) => {
            let ghost all = ips@;
            ips.truncate(multiple);
            proof {
                if multiple <= all.len() {
                    assert(texts(ips@) =~= texts(all).take(multiple as int));
                } else {
                    assert(texts(ips@) =~= texts(all).take(all.len() as int));
                }
            }
            Ok(ips)
        },
        Err(error) => Err(error),
    }
}

} // verus!
