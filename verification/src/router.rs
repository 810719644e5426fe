//! Request routing: matching a request path to a configured service by
//! URL prefix and rewriting the path for the upstream.

use vstd::prelude::*;
use vstd::seq_lib::*;
use vstd::string::*;

use crate::config::ServiceConfig;
use crate::text::str_starts_with;

verus! {

/// The path a matched request is forwarded with: the service prefix
/// removed exactly once; paths without the prefix pass unchanged.
pub open spec fn rewrite_spec(path: Seq<char>, prefix: Seq<char>) -> Seq<char> {
    if prefix.is_prefix_of(path) {
        path.skip(prefix.len() as int)
    } else {
        path
    }
}

/// The upstream URL for a matched request: the configured upstream,
/// the rewritten path, and the original query string if one came.
pub open spec fn upstream_url_spec(
    service: ServiceConfig,
    path: Seq<char>,
    query: Option<Seq<char>>,
) -> Seq<char> {
    service.upstream@ + rewrite_spec(path, service.prefix@) + match query {
        Some(q) => "?"@ + q,
        None => Seq::empty(),
    }
}

/// Law: for a path the prefix starts, rewriting removes the prefix
/// exactly once — the prefix put back in front of the rewritten path
/// restores the original path.
pub proof fn lemma_rewrite_removes_prefix_once(path: Seq<char>, prefix: Seq<char>)
    requires
        prefix.is_prefix_of(path),
    ensures
        rewrite_spec(path, prefix) == path.skip(prefix.len() as int),
        prefix + rewrite_spec(path, prefix) == path,
{
    assert(prefix + path.skip(prefix.len() as int) =~= path);
}

/// Law: the upstream URL of a matched request always begins with the
/// configured upstream, whatever the path and query.
pub proof fn lemma_upstream_url_starts_with_upstream(
    service: ServiceConfig,
    path: Seq<char>,
    query: Option<Seq<char>>,
)
    ensures
        service.upstream@.is_prefix_of(upstream_url_spec(service, path, query)),
{
    let url = upstream_url_spec(service, path, query);
    assert(url.subrange(0, service.upstream@.len() as int) =~= service.upstream@);
}

/// Matches a request path against the service list and returns the
/// first service whose prefix starts the path.
pub fn match_service<'a>(path: &str, services: &'a Vec<(String, ServiceConfig)>) -> (r: Option<
    (&'a String, &'a ServiceConfig),
>)
    ensures
        match r {
            Some((name, service)) => exists|i: int|
                0 <= i < services@.len() && (#[trigger] services@[i]).0 == *name && services@[i].1
                    == *service && services@[i].1.prefix@.is_prefix_of(path@) && (forall|j: int|
                    0 <= j < i ==> !(#[trigger] services@[j]).1.prefix@.is_prefix_of(path@)),
            None => forall|i: int|
                0 <= i < services@.len() ==> !(#[trigger] services@[i]).1.prefix@.is_prefix_of(
                    path@,
                ),
        },
{
    let n = services.len();
    let mut i: usize = 0;
    while i < n
        invariant
            n == services@.len(),
            0 <= i <= n,
            forall|j: int| 0 <= j < i ==> !(#[trigger] services@[j]).1.prefix@.is_prefix_of(path@),
        decreases n - i,
    {
        if str_starts_with(path, services[i].1.prefix.as_str()) {
            return Some((&services[i].0, &services[i].1));
        }
        i = i + 1;
    }
    None
}

/// Removes the service prefix from the front of the path, exactly
/// once; a path the prefix does not start passes unchanged.
pub fn rewrite_path(path: &str, prefix: &str) -> (r: String)
    ensures
        r@ == rewrite_spec(path@, prefix@),
{
    if str_starts_with(path, prefix) {
        let plen = prefix.unicode_len();
        let slen = path.unicode_len();
        path.substring_char(plen, slen).to_owned()
    } else {
        path.to_owned()
    }
}

/// Builds the upstream URL from the service rule, the request path and
/// the optional query string.
pub fn build_upstream_url(service: &ServiceConfig, path: &str, query: Option<&str>) -> (r: String)
    ensures
        r@ == upstream_url_spec(*service, path@, match query {
            Some(q) => Some(q@),
            None => None,
        }),
{
    let mut url = service.upstream.clone();
    let rewritten = rewrite_path(path, service.prefix.as_str());
    url.append(rewritten.as_str());
    match query {
        Some(q) => {
            url.append("?");
            url.append(q);
        },
        None => {
            proof {
                assert(url@ =~= url@ + Seq::<char>::empty());
            }
        },
    }
    url
}

} // verus!
