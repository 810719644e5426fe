//! The per-request forwarding pipeline: route, sanitise headers,
//! inject the credential, and convert the upstream response.
//!
//! Listening, upstream dispatch and byte streaming are I/O and happen
//! outside; they hand this module the request parts as plain values
//! and apply the returned parts verbatim.

use vstd::prelude::*;
use vstd::string::*;

use crate::config::{Config, ServiceConfig};
use crate::error::ProxyError;
use crate::router::{build_upstream_url, match_service, upstream_url_spec};
use crate::secrets::{lookup_secret, map_of_pairs};
use crate::substitution::format_auth_header;
use crate::text::{contains_seq, contains_sub, lower_seq, replace_all_spec, str_eq_ignore_ascii_case};

verus! {

/// The largest inbound request body the proxy will materialise.
pub const MAX_BODY_BYTES: usize = 10 * 1024 * 1024;

/// The proxy server state: the configuration and the loaded secrets,
/// both read-only once traffic is accepted.
pub struct ProxyServer {
    pub config: Config,
    pub secrets: Vec<(String, String)>,
}

impl ProxyServer {
    /// Creates a proxy server from a configuration and its pre-loaded
    /// secrets.
    pub fn new(config: Config, secrets: Vec<(String, String)>) -> (s: Self)
        ensures
            s.config == config,
            s.secrets == secrets,
    {
        ProxyServer { config, secrets }
    }
}

/// The views of a header list: each (name, value) pair as characters.
pub open spec fn header_views(hs: Seq<(String, String)>) -> Seq<(Seq<char>, Seq<char>)> {
    hs.map_values(|h: (String, String)| (h.0@, h.1@))
}

/// A hop-by-hop header, meaningful for one transport leg only and
/// never forwarded across the proxy.
pub open spec fn is_hop_by_hop_spec(name: Seq<char>) -> bool {
    ||| lower_seq(name) == lower_seq("connection"@)
    ||| lower_seq(name) == lower_seq("keep-alive"@)
    ||| lower_seq(name) == lower_seq("proxy-authenticate"@)
    ||| lower_seq(name) == lower_seq("proxy-authorization"@)
    ||| lower_seq(name) == lower_seq("te"@)
    ||| lower_seq(name) == lower_seq("trailers"@)
    ||| lower_seq(name) == lower_seq("transfer-encoding"@)
    ||| lower_seq(name) == lower_seq("upgrade"@)
}

/// Whether a response header name is hop-by-hop, case-insensitively.
pub fn is_hop_by_hop(header: &str) -> (r: bool)
    ensures
        r == is_hop_by_hop_spec(header@),
{
    str_eq_ignore_ascii_case(header, "connection") || str_eq_ignore_ascii_case(header, "keep-alive")
        || str_eq_ignore_ascii_case(header, "proxy-authenticate") || str_eq_ignore_ascii_case(
        header,
        "proxy-authorization",
    ) || str_eq_ignore_ascii_case(header, "te") || str_eq_ignore_ascii_case(header, "trailers")
        || str_eq_ignore_ascii_case(header, "transfer-encoding") || str_eq_ignore_ascii_case(
        header,
        "upgrade",
    )
}

/// An inbound request header the proxy forwards: neither `Host` nor
/// the service's own auth header, compared case-insensitively.
pub open spec fn keep_header_spec(name: Seq<char>, auth_header: Seq<char>) -> bool {
    lower_seq(name) != lower_seq("host"@) && lower_seq(name) != lower_seq(auth_header)
}

/// Copies the forwardable inbound headers: `Host` and the service's
/// auth header are dropped, everything else is kept in order.
pub fn filter_request_headers(headers: &Vec<(String, String)>, auth_header: &str) -> (r: Vec<
    (String, String),
>)
    ensures
        header_views(r@) == header_views(headers@).filter(
            |h: (Seq<char>, Seq<char>)| keep_header_spec(h.0, auth_header@),
        ),
{
    let ghost pred = |h: (Seq<char>, Seq<char>)| keep_header_spec(h.0, auth_header@);
    let n = headers.len();
    let mut r: Vec<(String, String)> = Vec::new();
    proof {
        reveal(Seq::filter);
        assert(header_views(headers@.take(0)) =~= Seq::<(Seq<char>, Seq<char>)>::empty());
        assert(header_views(r@) =~= header_views(headers@.take(0)).filter(pred));
    }
    let mut i: usize = 0;
    while i < n
        invariant
            n == headers@.len(),
            0 <= i <= n,
            header_views(r@) == header_views(headers@.take(i as int)).filter(pred),
            pred == (|h: (Seq<char>, Seq<char>)| keep_header_spec(h.0, auth_header@)),
        decreases n - i,
    {
        let keep = !str_eq_ignore_ascii_case(headers[i].0.as_str(), "host")
            && !str_eq_ignore_ascii_case(headers[i].0.as_str(), auth_header);
        proof {
            reveal(Seq::filter);
            let pair = (headers@[i as int].0@, headers@[i as int].1@);
            assert(header_views(headers@.take(i + 1)) =~= header_views(headers@.take(i as int))
                + seq![pair]);
            Seq::<(Seq<char>, Seq<char>)>::filter_distributes_over_add(
                header_views(headers@.take(i as int)),
                seq![pair],
                pred,
            );
            assert(seq![pair].drop_last() =~= Seq::<(Seq<char>, Seq<char>)>::empty());
            assert(Seq::<(Seq<char>, Seq<char>)>::empty().filter(pred) =~= Seq::<
                (Seq<char>, Seq<char>),
            >::empty());
            if keep {
                assert(seq![pair].filter(pred) =~= seq![pair]);
            } else {
                assert(seq![pair].filter(pred) =~= Seq::<(Seq<char>, Seq<char>)>::empty());
                assert(header_views(headers@.take(i as int)).filter(pred) + Seq::<
                    (Seq<char>, Seq<char>),
                >::empty() =~= header_views(headers@.take(i as int)).filter(pred));
            }
        }
        if keep {
            let ghost r0 = r@;
            r.push((headers[i].0.clone(), headers[i].1.clone()));
            proof {
                assert(header_views(r@) =~= header_views(r0) + seq![
                    (headers@[i as int].0@, headers@[i as int].1@),
                ]);
            }
        }
        i = i + 1;
    }
    proof {
        assert(headers@.take(n as int) =~= headers@);
    }
    r
}

/// Whether the upstream response must be streamed to the client: the
/// first `Content-Type` header names an event stream.
pub open spec fn streaming_response_spec(headers: Seq<(String, String)>) -> bool {
    exists|i: int|
        0 <= i < headers.len() && lower_seq((#[trigger] headers[i]).0@) == lower_seq(
            "content-type"@,
        ) && (forall|j: int|
            0 <= j < i ==> lower_seq((#[trigger] headers[j]).0@) != lower_seq("content-type"@))
            && contains_seq(headers[i].1@, "text/event-stream"@)
}

/// Decides from the upstream response headers whether the body is
/// forwarded chunk by chunk (an event stream) or fully buffered.
pub fn is_streaming_response(headers: &Vec<(String, String)>) -> (r: bool)
    ensures
        r == streaming_response_spec(headers@),
{
    let n = headers.len();
    let mut i: usize = 0;
    while i < n
        invariant
            n == headers@.len(),
            0 <= i <= n,
            forall|j: int|
                0 <= j < i ==> lower_seq((#[trigger] headers@[j]).0@) != lower_seq(
                    "content-type"@,
                ),
        decreases n - i,
    {
        if str_eq_ignore_ascii_case(headers[i].0.as_str(), "content-type") {
            return contains_sub(headers[i].1.as_str(), "text/event-stream");
        }
        i = i + 1;
    }
    false
}

/// The client response derived from an upstream response: the status
/// copied, hop-by-hop headers dropped, and the delivery mode.
pub struct ResponsePlan {
    pub status: u16,
    pub headers: Vec<(String, String)>,
    pub streaming: bool,
}

/// Converts an upstream response's status and headers for the client:
/// the status passes through, every hop-by-hop header is dropped, the
/// rest keep their order, and event streams are marked for
/// chunk-by-chunk delivery.
pub fn convert_response_parts(status: u16, headers: &Vec<(String, String)>) -> (r: ResponsePlan)
    ensures
        r.status == status,
        header_views(r.headers@) == header_views(headers@).filter(
            |h: (Seq<char>, Seq<char>)| !is_hop_by_hop_spec(h.0),
        ),
        r.streaming == streaming_response_spec(headers@),
{
    let streaming = is_streaming_response(headers);
    let ghost pred = |h: (Seq<char>, Seq<char>)| !is_hop_by_hop_spec(h.0);
    let n = headers.len();
    let mut kept: Vec<(String, String)> = Vec::new();
    proof {
        reveal(Seq::filter);
        assert(header_views(headers@.take(0)) =~= Seq::<(Seq<char>, Seq<char>)>::empty());
        assert(header_views(kept@) =~= header_views(headers@.take(0)).filter(pred));
    }
    let mut i: usize = 0;
    while i < n
        invariant
            n == headers@.len(),
            0 <= i <= n,
            header_views(kept@) == header_views(headers@.take(i as int)).filter(pred),
            pred == (|h: (Seq<char>, Seq<char>)| !is_hop_by_hop_spec(h.0)),
        decreases n - i,
    {
        let keep = !is_hop_by_hop(headers[i].0.as_str());
        proof {
            reveal(Seq::filter);
            let pair = (headers@[i as int].0@, headers@[i as int].1@);
            assert(header_views(headers@.take(i + 1)) =~= header_views(headers@.take(i as int))
                + seq![pair]);
            Seq::<(Seq<char>, Seq<char>)>::filter_distributes_over_add(
                header_views(headers@.take(i as int)),
                seq![pair],
                pred,
            );
            assert(seq![pair].drop_last() =~= Seq::<(Seq<char>, Seq<char>)>::empty());
            assert(Seq::<(Seq<char>, Seq<char>)>::empty().filter(pred) =~= Seq::<
                (Seq<char>, Seq<char>),
            >::empty());
            if keep {
                assert(seq![pair].filter(pred) =~= seq![pair]);
            } else {
                assert(seq![pair].filter(pred) =~= Seq::<(Seq<char>, Seq<char>)>::empty());
                assert(header_views(headers@.take(i as int)).filter(pred) + Seq::<
                    (Seq<char>, Seq<char>),
                >::empty() =~= header_views(headers@.take(i as int)).filter(pred));
            }
        }
        if keep {
            let ghost k0 = kept@;
            kept.push((headers[i].0.clone(), headers[i].1.clone()));
            proof {
                assert(header_views(kept@) =~= header_views(k0) + seq![
                    (headers@[i as int].0@, headers@[i as int].1@),
                ]);
            }
        }
        i = i + 1;
    }
    proof {
        assert(headers@.take(n as int) =~= headers@);
    }
    ResponsePlan { status, headers: kept, streaming }
}

/// First position of the service list whose prefix starts the path,
/// with no earlier position matching.
pub open spec fn first_route_at(
    path: Seq<char>,
    services: Seq<(String, ServiceConfig)>,
    i: int,
) -> bool {
    0 <= i < services.len() && services[i].1.prefix@.is_prefix_of(path) && (forall|j: int|
        0 <= j < i ==> !(#[trigger] services[j]).1.prefix@.is_prefix_of(path))
}

/// No configured prefix starts the path.
pub open spec fn no_route(path: Seq<char>, services: Seq<(String, ServiceConfig)>) -> bool {
    forall|i: int| 0 <= i < services.len() ==> !(#[trigger] services[i]).1.prefix@.is_prefix_of(path)
}

/// The character view of an optional query string.
pub open spec fn opt_str_view(q: Option<&str>) -> Option<Seq<char>> {
    match q {
        Some(s) => Some(s@),
        None => None,
    }
}

/// The value injected into the service's auth header: the auth format
/// with the placeholder replaced by the service's secret.
pub open spec fn auth_value_spec(svc: ServiceConfig, m: Map<Seq<char>, Seq<char>>) -> Seq<char> {
    replace_all_spec(svc.auth_format@, "{secret}"@, m.index(svc.secret@))
}

/// The outbound request the proxy sends upstream: the rewritten URL
/// and the sanitised header list ending with the injected credential.
pub struct UpstreamRequest {
    pub url: String,
    pub headers: Vec<(String, String)>,
}

/// What the outbound parts must be for a request the service `svc`
/// serves: the upstream URL built from the rewritten path; the kept
/// inbound headers in order, with `Host` and the client's copy of the
/// auth header dropped; and the injected credential as the one final
/// header.
pub open spec fn upstream_parts_ok(
    u: UpstreamRequest,
    svc: ServiceConfig,
    m: Map<Seq<char>, Seq<char>>,
    path: Seq<char>,
    query: Option<Seq<char>>,
    headers: Seq<(String, String)>,
) -> bool {
    &&& u.url@ == upstream_url_spec(svc, path, query)
    &&& u.headers@.len() >= 1
    &&& header_views(u.headers@.drop_last()) == header_views(headers).filter(
        |h: (Seq<char>, Seq<char>)| keep_header_spec(h.0, svc.auth_header@),
    )
    &&& u.headers@.last().0@ == svc.auth_header@
    &&& u.headers@.last().1@ == auth_value_spec(svc, m)
}

/// The outcome owed once the request is routed to service `svc`: a
/// configuration error naming the missing secret when the store lacks
/// it, else the exact outbound parts of [`upstream_parts_ok`].
pub open spec fn routed_outcome(
    r: Result<UpstreamRequest, ProxyError>,
    svc: ServiceConfig,
    m: Map<Seq<char>, Seq<char>>,
    path: Seq<char>,
    query: Option<Seq<char>>,
    headers: Seq<(String, String)>,
) -> bool {
    &&& (!m.contains_key(svc.secret@) ==> (r matches Err(ProxyError::InvalidToken(d)) && d@
        == svc.secret@))
    &&& (m.contains_key(svc.secret@) ==> (r matches Ok(u) && upstream_parts_ok(
        u,
        svc,
        m,
        path,
        query,
        headers,
    )))
}

/// Builds the outbound request parts for an inbound request: routes
/// the path, drops the `Host` and client auth headers, injects the
/// freshly formatted credential once, and builds the upstream URL.
pub fn build_upstream_parts(
    path: &str,
    query: Option<&str>,
    headers: &Vec<(String, String)>,
    services: &Vec<(String, ServiceConfig)>,
    secrets: &Vec<(String, String)>,
) -> (r: Result<UpstreamRequest, ProxyError>)
    ensures
        no_route(path@, services@) ==> (r matches Err(ProxyError::UnknownService(d)) && d@
            == path@),
        forall|i: int| #[trigger]
            first_route_at(path@, services@, i) ==> routed_outcome(
                r,
                services@[i].1,
                map_of_pairs(secrets@),
                path@,
                opt_str_view(query),
                headers@,
            ),
        r matches Err(e) ==> (e is UnknownService || e is InvalidToken),
{
    match match_service(path, services) {
        None => {
            proof {
                assert(forall|i: int| !first_route_at(path@, services@, i));
            }
            Err(ProxyError::UnknownService(path.to_owned()))
        },
        Some((name, service)) => {
            proof {
                let i0 = choose|i0: int|
                    0 <= i0 < services@.len() && (#[trigger] services@[i0]).0 == *name
                        && services@[i0].1 == *service && services@[i0].1.prefix@.is_prefix_of(
                        path@,
                    ) && (forall|j: int|
                        0 <= j < i0 ==> !(#[trigger] services@[j]).1.prefix@.is_prefix_of(path@));
                assert(first_route_at(path@, services@, i0));
                assert(!no_route(path@, services@));
                assert forall|i: int| #[trigger]
                    first_route_at(path@, services@, i) implies services@[i].1 == *service by {
                    if i < i0 {
                        assert(services@[i].1.prefix@.is_prefix_of(path@));
                        assert(false);
                    } else if i0 < i {
                        assert(services@[i0].1.prefix@.is_prefix_of(path@));
                        assert(false);
                    }
                }
            }
            match lookup_secret(secrets, service.secret.as_str()) {
                None => Err(ProxyError::InvalidToken(service.secret.clone())),
                Some(secret_value) => {
                    let auth_value = format_auth_header(
                        service.auth_format.as_str(),
                        secret_value.as_str(),
                    );
                    let url = build_upstream_url(service, path, query);
                    let mut out_headers = filter_request_headers(
                        headers,
                        service.auth_header.as_str(),
                    );
                    let ghost kept = out_headers@;
                    out_headers.push((service.auth_header.clone(), auth_value));
                    proof {
                        assert(out_headers@.drop_last() =~= kept);
                    }
                    Ok(UpstreamRequest { url, headers: out_headers })
                },
            }
        },
    }
}

/// Law: a secret store that resolves every configured service's
/// secret name makes a missing secret a startup condition, never a
/// per-request one — a routed request built against such a store
/// always yields the outbound parts, not an error.
pub proof fn lemma_complete_store_serves_every_route(
    r: Result<UpstreamRequest, ProxyError>,
    path: Seq<char>,
    query: Option<Seq<char>>,
    headers: Seq<(String, String)>,
    services: Seq<(String, ServiceConfig)>,
    secrets: Seq<(String, String)>,
)
    requires
        forall|i: int|
            0 <= i < services.len() ==> map_of_pairs(secrets).contains_key(
                (#[trigger] services[i]).1.secret@,
            ),
        forall|i: int| #[trigger]
            first_route_at(path, services, i) ==> routed_outcome(
                r,
                services[i].1,
                map_of_pairs(secrets),
                path,
                query,
                headers,
            ),
        exists|i: int| first_route_at(path, services, i),
    ensures
        r is Ok,
{
    let i = choose|i: int| first_route_at(path, services, i);
    assert(map_of_pairs(secrets).contains_key(services[i].1.secret@));
}

/// Number of headers of the list whose name is `name`, compared
/// case-insensitively.
pub open spec fn count_headers(hs: Seq<(Seq<char>, Seq<char>)>, name: Seq<char>) -> nat
    decreases hs.len(),
{
    if hs.len() == 0 {
        0
    } else {
        (if lower_seq(hs[0].0) == lower_seq(name) {
            1 as nat
        } else {
            0 as nat
        }) + count_headers(hs.skip(1), name)
    }
}

/// A list without the name counts zero of it.
proof fn lemma_count_headers_none(hs: Seq<(Seq<char>, Seq<char>)>, name: Seq<char>)
    requires
        forall|k: int| 0 <= k < hs.len() ==> lower_seq((#[trigger] hs[k]).0) != lower_seq(name),
    ensures
        count_headers(hs, name) == 0,
    decreases hs.len(),
{
    if hs.len() > 0 {
        assert(forall|k: int|
            0 <= k < hs.skip(1).len() ==> lower_seq((#[trigger] hs.skip(1)[k]).0) != lower_seq(
                name,
            ));
        lemma_count_headers_none(hs.skip(1), name);
    }
}

/// Appending one header raises the count by one exactly when its name
/// matches.
proof fn lemma_count_headers_snoc(
    hs: Seq<(Seq<char>, Seq<char>)>,
    h: (Seq<char>, Seq<char>),
    name: Seq<char>,
)
    ensures
        count_headers(hs.push(h), name) == count_headers(hs, name) + (
        if lower_seq(h.0) == lower_seq(name) {
            1 as nat
        } else {
            0 as nat
        }),
    decreases hs.len(),
{
    if hs.len() == 0 {
        assert(hs.push(h).skip(1) =~= Seq::<(Seq<char>, Seq<char>)>::empty());
        assert(hs.push(h)[0] == h);
        assert(count_headers(Seq::<(Seq<char>, Seq<char>)>::empty(), name) == 0);
        assert(count_headers(hs.push(h), name) == (if lower_seq(h.0) == lower_seq(name) {
            1 as nat
        } else {
            0 as nat
        }) + count_headers(hs.push(h).skip(1), name));
    } else {
        assert(hs.push(h)[0] == hs[0]);
        assert(hs.push(h).skip(1) =~= hs.skip(1).push(h));
        lemma_count_headers_snoc(hs.skip(1), h, name);
    }
}

/// Law: the outbound request carries the service's auth header exactly
/// once, even when the client supplied a header of the same name.
pub proof fn lemma_auth_header_injected_once(
    u: UpstreamRequest,
    svc: ServiceConfig,
    m: Map<Seq<char>, Seq<char>>,
    path: Seq<char>,
    query: Option<Seq<char>>,
    headers: Seq<(String, String)>,
)
    requires
        upstream_parts_ok(u, svc, m, path, query, headers),
    ensures
        count_headers(header_views(u.headers@), svc.auth_header@) == 1,
{
    let pred = |h: (Seq<char>, Seq<char>)| keep_header_spec(h.0, svc.auth_header@);
    let kept = header_views(u.headers@.drop_last());
    assert forall|k: int| 0 <= k < kept.len() implies lower_seq((#[trigger] kept[k]).0)
        != lower_seq(svc.auth_header@) by {
        Seq::lemma_filter_pred(header_views(headers), pred, k);
    }
    lemma_count_headers_none(kept, svc.auth_header@);
    let last = header_views(u.headers@).last();
    assert(last.0 == u.headers@.last().0@);
    assert(header_views(u.headers@) =~= kept.push(last));
    lemma_count_headers_snoc(kept, last, svc.auth_header@);
}

/// Law: neither the inbound `Host` header nor the client-supplied copy
/// of the service's auth header reaches the upstream: every outbound
/// header but the injected final one carries neither name, and the
/// final one's value is freshly computed from the store, not taken
/// from the inbound request.
pub proof fn lemma_sensitive_inbound_headers_dropped(
    u: UpstreamRequest,
    svc: ServiceConfig,
    m: Map<Seq<char>, Seq<char>>,
    path: Seq<char>,
    query: Option<Seq<char>>,
    headers: Seq<(String, String)>,
)
    requires
        upstream_parts_ok(u, svc, m, path, query, headers),
    ensures
        forall|k: int|
            0 <= k < u.headers@.len() - 1 ==> lower_seq((#[trigger] u.headers@[k]).0@)
                != lower_seq("host"@),
        forall|k: int|
            0 <= k < u.headers@.len() - 1 ==> lower_seq((#[trigger] u.headers@[k]).0@)
                != lower_seq(svc.auth_header@),
        u.headers@.last().1@ == auth_value_spec(svc, m),
{
    let pred = |h: (Seq<char>, Seq<char>)| keep_header_spec(h.0, svc.auth_header@);
    let kept = header_views(u.headers@.drop_last());
    assert forall|k: int| 0 <= k < u.headers@.len() - 1 implies lower_seq(
        (#[trigger] u.headers@[k]).0@,
    ) != lower_seq("host"@) && lower_seq(u.headers@[k].0@) != lower_seq(svc.auth_header@) by {
        assert(kept[k] == (u.headers@.drop_last()[k].0@, u.headers@.drop_last()[k].1@));
        Seq::lemma_filter_pred(header_views(headers), pred, k);
    }
}

/// Law: no hop-by-hop header appears in any response returned to the
/// client, whatever the upstream sent.
pub proof fn lemma_hop_by_hop_never_forwarded(
    headers: Seq<(String, String)>,
    kept: Seq<(Seq<char>, Seq<char>)>,
)
    requires
        kept == header_views(headers).filter(|h: (Seq<char>, Seq<char>)| !is_hop_by_hop_spec(h.0)),
    ensures
        forall|k: int| 0 <= k < kept.len() ==> !is_hop_by_hop_spec((#[trigger] kept[k]).0),
{
    let pred = |h: (Seq<char>, Seq<char>)| !is_hop_by_hop_spec(h.0);
    assert forall|k: int| 0 <= k < kept.len() implies !is_hop_by_hop_spec(
        (#[trigger] kept[k]).0,
    ) by {
        Seq::lemma_filter_pred(header_views(headers), pred, k);
    }
}

} // verus!
