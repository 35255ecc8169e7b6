//! The registry of linked folder sites, reverse-proxy sites and custom
//! domains (`sites.toml`): validation of every entry and the rules that keep
//! a domain with one site.
use crate::scaffold::{is_valid_label, valid_label, validate_site_name};
use crate::text::{
    chars_of, decimal, decimal_string, find_char, has_char, parse_uint, parse_uint_str,
    rfind_char, rsplit_once, split_char, split_on, starts_with, starts_with_str, str_eq, string_of,
    to_lower, to_lower_str, trim, trim_str,
};
use vstd::prelude::*;

verus! {

/// What went wrong with a registry operation, without its detail text.
#[derive(Clone, Copy, PartialEq, Eq, Debug, Structural)]
pub enum RegistryErrorKind {
    Io,
    Parse,
    Serialize,
    InvalidName,
    RootNotFound,
    Duplicate,
    InvalidUpstream,
    InvalidRoute,
    NoRoutes,
    NotFound,
    InvalidDomain,
    NoDomains,
    DomainTaken,
}

/// A failed registry operation; the text names the offending input.
#[derive(Debug)]
pub enum RegistryError {
    Io(String),
    Parse(String),
    Serialize(String),
    InvalidName(String),
    RootNotFound(String),
    Duplicate(String),
    InvalidUpstream(String),
    InvalidRoute(String),
    NoRoutes,
    NotFound(String),
    InvalidDomain(String),
    NoDomains,
    DomainTaken(String),
}

impl View for RegistryError {
    type V = (RegistryErrorKind, Seq<char>);

    open spec fn view(&self) -> (RegistryErrorKind, Seq<char>) {
        match self {
            RegistryError::Io(s) => (RegistryErrorKind::Io, s@),
            RegistryError::Parse(s) => (RegistryErrorKind::Parse, s@),
            RegistryError::Serialize(s) => (RegistryErrorKind::Serialize, s@),
            RegistryError::InvalidName(s) => (RegistryErrorKind::InvalidName, s@),
            RegistryError::RootNotFound(s) => (RegistryErrorKind::RootNotFound, s@),
            RegistryError::Duplicate(s) => (RegistryErrorKind::Duplicate, s@),
            RegistryError::InvalidUpstream(s) => (RegistryErrorKind::InvalidUpstream, s@),
            RegistryError::InvalidRoute(s) => (RegistryErrorKind::InvalidRoute, s@),
            RegistryError::NoRoutes => (RegistryErrorKind::NoRoutes, seq![]),
            RegistryError::NotFound(s) => (RegistryErrorKind::NotFound, s@),
            RegistryError::InvalidDomain(s) => (RegistryErrorKind::InvalidDomain, s@),
            RegistryError::NoDomains => (RegistryErrorKind::NoDomains, seq![]),
            RegistryError::DomainTaken(s) => (RegistryErrorKind::DomainTaken, s@),
        }
    }
}

/// How the message of an error of each kind begins.
pub open spec fn registry_message_head(k: RegistryErrorKind) -> Seq<char> {
    match k {
        RegistryErrorKind::Io => "registry io error: "@,
        RegistryErrorKind::Parse => "registry parse error: "@,
        RegistryErrorKind::Serialize => "registry serialize error: "@,
        RegistryErrorKind::InvalidName => "invalid site name: "@,
        RegistryErrorKind::RootNotFound => "folder not found: "@,
        RegistryErrorKind::Duplicate => "site already registered: "@,
        RegistryErrorKind::InvalidUpstream => "invalid upstream: "@,
        RegistryErrorKind::InvalidRoute => "invalid route: "@,
        RegistryErrorKind::NoRoutes => "a proxy needs at least one route"@,
        RegistryErrorKind::NotFound => "not found: "@,
        RegistryErrorKind::InvalidDomain => "invalid domain: "@,
        RegistryErrorKind::NoDomains => "a site needs at least one domain"@,
        RegistryErrorKind::DomainTaken => "domain already used by another site: "@,
    }
}

impl RegistryError {
    /// The message shown to the user: the kind's wording, then the
    /// offending input.
    pub fn message(&self) -> (m: String)
        ensures
            m@ == registry_message_head(self@.0) + self@.1,
    {
        proof {
            reveal_strlit("");
        }
        let (head, detail): (&str, &str) = match self {
            RegistryError::Io(s) => ("registry io error: ", s.as_str()),
            RegistryError::Parse(s) => ("registry parse error: ", s.as_str()),
            RegistryError::Serialize(s) => ("registry serialize error: ", s.as_str()),
            RegistryError::InvalidName(s) => ("invalid site name: ", s.as_str()),
            RegistryError::RootNotFound(s) => ("folder not found: ", s.as_str()),
            RegistryError::Duplicate(s) => ("site already registered: ", s.as_str()),
            RegistryError::InvalidUpstream(s) => ("invalid upstream: ", s.as_str()),
            RegistryError::InvalidRoute(s) => ("invalid route: ", s.as_str()),
            RegistryError::NoRoutes => ("a proxy needs at least one route", ""),
            RegistryError::NotFound(s) => ("not found: ", s.as_str()),
            RegistryError::InvalidDomain(s) => ("invalid domain: ", s.as_str()),
            RegistryError::NoDomains => ("a site needs at least one domain", ""),
            RegistryError::DomainTaken(s) => ("domain already used by another site: ", s.as_str()),
        };
        crate::text::cat(head, detail)
    }
}

/// A folder site linked from outside the web root.
#[derive(Debug, Clone, PartialEq, Eq)]
pub struct RegisteredSite {
    pub name: String,
    pub root: String,
}

/// One path prefix of a proxy site and the `host:port` it forwards to.
#[derive(Debug, Clone, PartialEq, Eq)]
pub struct ProxyRoute {
    pub path: String,
    pub upstream: String,
}

impl ProxyRoute {
    /// A field-by-field copy.
    pub fn duplicate(&self) -> (r: ProxyRoute)
        ensures
            r.path@ == self.path@,
            r.upstream@ == self.upstream@,
    {
        ProxyRoute { path: self.path.clone(), upstream: self.upstream.clone() }
    }
}

/// A site served by forwarding to local upstreams.
#[derive(Debug, Clone, PartialEq, Eq)]
pub struct ProxySite {
    pub name: String,
    pub websocket: bool,
    pub routes: Vec<ProxyRoute>,
    /// The project folder whose Procfile processes run with the proxy, if any.
    pub root: Option<String>,
}

/// The custom local domains of one site (the first one leads).
#[derive(Debug, Clone, PartialEq, Eq)]
pub struct SiteDomains {
    pub name: String,
    pub domains: Vec<String>,
}

/// The public domains of one site; same shape as its local domains.
pub type SitePublicDomains = SiteDomains;

/// All registered folder sites, proxy sites and domains.
#[derive(Debug, Clone, PartialEq, Eq)]
pub struct SiteRegistry {
    sites: Vec<RegisteredSite>,
    proxies: Vec<ProxySite>,
    domains: Vec<SiteDomains>,
    public_domains: Vec<SitePublicDomains>,
}

pub open spec fn str_views(v: Seq<String>) -> Seq<Seq<char>> {
    v.map_values(|s: String| s@)
}

pub open spec fn route_views(rs: Seq<ProxyRoute>) -> Seq<(Seq<char>, Seq<char>)> {
    rs.map_values(|r: ProxyRoute| (r.path@, r.upstream@))
}

// ---------------------------------------------------------------------------
// Upstreams and routes
// ---------------------------------------------------------------------------

/// `host` and `port` text of a trimmed, non-empty target: split at the last
/// `:`, the host defaulting to `127.0.0.1`.
pub open spec fn upstream_parts(s: Seq<char>) -> (Seq<char>, Seq<char>) {
    match rsplit_once(s, ':') {
        Some(p) => (if p.0.len() == 0 { "127.0.0.1"@ } else { p.0 }, p.1),
        None => ("127.0.0.1"@, s),
    }
}

/// `host:port` for a user-typed target, the port a `u16` other than 0.
pub open spec fn spec_normalize_upstream(input: Seq<char>) -> Option<Seq<char>> {
    let s = trim(input);
    let (host, port) = upstream_parts(s);
    if s.len() == 0 {
        None
    } else {
        match parse_uint(port, 65535) {
            Some(n) => if n == 0 {
                None
            } else {
                Some(host + seq![':'] + decimal(n))
            },
            None => None,
        }
    }
}

/// `host` and `port` text of a trimmed target (see [`upstream_parts`]).
fn split_upstream(t: &str) -> (r: (String, String))
    ensures
        (r.0@, r.1@) == upstream_parts(t@),
{
    let v = chars_of(t);
    let ghost s = v@;
    proof {
        reveal_strlit("127.0.0.1");
    }
    match rfind_char(&v, ':') {
        Some(i) => {
            let h = string_of(&v, 0, i);
            let p = string_of(&v, i + 1, v.len());
            assert(s.take(i as int) == s.subrange(0, i as int));
            assert(s.skip(i + 1) == s.subrange(i + 1, s.len() as int));
            if h.as_str().is_empty() {
                (String::from_str("127.0.0.1"), p)
            } else {
                (h, p)
            }
        },
        None => {
            assert(s.subrange(0, s.len() as int) == s);
            (String::from_str("127.0.0.1"), string_of(&v, 0, v.len()))
        },
    }
}

/// Normalize a user-typed target into `host:port` (default host 127.0.0.1).
pub fn normalize_upstream(input: &str) -> (r: Result<String, RegistryError>)
    ensures
        match r {
            Ok(s) => spec_normalize_upstream(input@) == Some(s@),
            Err(e) => spec_normalize_upstream(input@) is None && e@ == (
            RegistryErrorKind::InvalidUpstream,
            input@,
            ),
        },
{
    let t = trim_str(input);
    if t.as_str().is_empty() {
        return Err(RegistryError::InvalidUpstream(input.to_string()));
    }
    let (host, port) = split_upstream(t.as_str());
    match parse_uint_str(port.as_str(), 65535) {
        Some(n) => {
            if n == 0 {
                Err(RegistryError::InvalidUpstream(input.to_string()))
            } else {
                let mut out = host;
                out.append(":");
                let d = decimal_string(n);
                out.append(d.as_str());
                proof {
                    reveal_strlit(":");
                }
                Ok(out)
            }
        },
        None => Err(RegistryError::InvalidUpstream(input.to_string())),
    }
}

/// The fault of route `i`, given the routes before it.
pub open spec fn route_fault(rs: Seq<ProxyRoute>, i: int) -> Option<(RegistryErrorKind, Seq<char>)> {
    let path = rs[i].path@;
    if !(path.len() > 0 && path[0] == '/') {
        Some((RegistryErrorKind::InvalidRoute, path))
    } else if exists|j: int| 0 <= j < i && #[trigger] rs[j].path@ == path {
        Some((RegistryErrorKind::InvalidRoute, "duplicate path "@ + path))
    } else if spec_normalize_upstream(rs[i].upstream@) is None {
        Some((RegistryErrorKind::InvalidUpstream, rs[i].upstream@))
    } else {
        None
    }
}

/// The fault of the first faulty route among the first `n`.
pub open spec fn first_route_fault(rs: Seq<ProxyRoute>, n: int) -> Option<(RegistryErrorKind, Seq<char>)>
    decreases n,
{
    if n <= 0 {
        None
    } else if first_route_fault(rs, n - 1) is Some {
        first_route_fault(rs, n - 1)
    } else {
        route_fault(rs, n - 1)
    }
}

pub open spec fn normalized_route(r: ProxyRoute) -> (Seq<char>, Seq<char>) {
    (r.path@, spec_normalize_upstream(r.upstream@).unwrap())
}

/// At least one route; each path starts with `/`, no path twice, every
/// upstream valid; the result carries the normalized upstreams.
pub open spec fn spec_validate_routes(rs: Seq<ProxyRoute>) -> Result<
    Seq<(Seq<char>, Seq<char>)>,
    (RegistryErrorKind, Seq<char>),
> {
    if rs.len() == 0 {
        Err((RegistryErrorKind::NoRoutes, seq![]))
    } else {
        match first_route_fault(rs, rs.len() as int) {
            Some(f) => Err(f),
            None => Ok(rs.map_values(|r: ProxyRoute| normalized_route(r))),
        }
    }
}

/// Validate routes (≥1, each path starts with `/`, no duplicate paths) and
/// return them with normalized upstreams.
pub fn validate_routes(routes: &[ProxyRoute]) -> (r: Result<Vec<ProxyRoute>, RegistryError>)
    ensures
        match r {
            Ok(v) => spec_validate_routes(routes@) == Ok::<_, (RegistryErrorKind, Seq<char>)>(route_views(v@)),
            Err(e) => spec_validate_routes(routes@) == Err::<Seq<(Seq<char>, Seq<char>)>, _>(e@),
        },
{
    if routes.len() == 0 {
        return Err(RegistryError::NoRoutes);
    }
    let ghost rs = routes@;
    let mut out: Vec<ProxyRoute> = Vec::new();
    let mut i: usize = 0;
    while i < routes.len()
        invariant
            0 <= i <= routes.len(),
            rs == routes@,
            rs.len() > 0,
            first_route_fault(rs, i as int) is None,
            out@.len() == i,
            forall|k: int| 0 <= k < i ==> #[trigger] out@[k].path@ == rs[k].path@,
            route_views(out@) == rs.take(i as int).map_values(|r: ProxyRoute| normalized_route(r)),
        decreases routes.len() - i,
    {
        let r = &routes[i];
        let p = r.path.as_str();
        let starts = starts_with_str(p, "/");
        proof {
            reveal_strlit("/");
        }
        if !starts {
            proof {
                let path = rs[i as int].path@;
                if path.len() > 0 && path[0] == '/' {
                    assert(path.take(1) =~= "/"@);
                }
            }
            assert(first_route_fault(rs, i + 1) == route_fault(rs, i as int));
            proof {
                lemma_route_fault_prefix(rs, i + 1, rs.len() as int);
            }
            return Err(RegistryError::InvalidRoute(r.path.clone()));
        }
        assert(p@.take(1)[0] == p@[0]);
        match path_index(&out, p) {
            Some(j) => {
                assert(rs[j as int].path@ == rs[i as int].path@);
                assert(first_route_fault(rs, i + 1) == route_fault(rs, i as int));
                proof {
                    lemma_route_fault_prefix(rs, i + 1, rs.len() as int);
                    reveal_strlit("duplicate path ");
                }
                let mut msg = String::from_str("duplicate path ");
                msg.append(p);
                return Err(RegistryError::InvalidRoute(msg));
            },
            None => {
                assert forall|k: int| 0 <= k < i implies #[trigger] rs[k].path@ != rs[i as int].path@ by {
                    assert(out@[k].path@ == rs[k].path@);
                }
            },
        }
        let upstream = match normalize_upstream(r.upstream.as_str()) {
            Ok(u) => u,
            Err(e) => {
                assert(first_route_fault(rs, i + 1) == route_fault(rs, i as int));
                proof {
                    lemma_route_fault_prefix(rs, i + 1, rs.len() as int);
                }
                return Err(e);
            },
        };
        let ghost before = route_views(out@);
        out.push(ProxyRoute { path: r.path.clone(), upstream });
        proof {
            assert(route_fault(rs, i as int) is None);
            assert(first_route_fault(rs, i + 1) is None);
            assert(route_views(out@) == before.push(normalized_route(rs[i as int])));
            assert(rs.take(i + 1) == rs.take(i as int).push(rs[i as int]));
            assert(rs.take(i + 1).map_values(|r: ProxyRoute| normalized_route(r)) == rs.take(
                i as int,
            ).map_values(|r: ProxyRoute| normalized_route(r)).push(normalized_route(rs[i as int])));
        }
        i = i + 1;
    }
    assert(rs.take(i as int) == rs);
    Ok(out)
}

/// Index of a route of `rs` whose path is `p`.
fn path_index(rs: &Vec<ProxyRoute>, p: &str) -> (r: Option<usize>)
    ensures
        match r {
            Some(j) => j < rs@.len() && rs@[j as int].path@ == p@,
            None => forall|k: int| 0 <= k < rs@.len() ==> #[trigger] rs@[k].path@ != p@,
        },
{
    let mut j: usize = 0;
    while j < rs.len()
        invariant
            0 <= j <= rs.len(),
            forall|k: int| 0 <= k < j ==> #[trigger] rs@[k].path@ != p@,
        decreases rs.len() - j,
    {
        if str_eq(rs[j].path.as_str(), p) {
            return Some(j);
        }
        j = j + 1;
    }
    None
}

/// Once a route fault is found among the first `n`, it stays the first.
proof fn lemma_route_fault_prefix(rs: Seq<ProxyRoute>, n: int, m: int)
    requires
        0 <= n <= m,
        first_route_fault(rs, n) is Some,
    ensures
        first_route_fault(rs, m) == first_route_fault(rs, n),
    decreases m - n,
{
    if m > n {
        lemma_route_fault_prefix(rs, n, m - 1);
    }
}

// ---------------------------------------------------------------------------
// Domains
// ---------------------------------------------------------------------------

/// The host part of a domain: without a leading `*.`.
pub open spec fn domain_host(d: Seq<char>) -> Seq<char> {
    if starts_with(d, "*."@) {
        d.skip(2)
    } else {
        d
    }
}

/// A valid site domain: dotted DNS labels (at least two), optionally with a
/// leading `*.`.
pub open spec fn valid_domain(d: Seq<char>) -> bool {
    let host = domain_host(d);
    &&& host.len() > 0
    &&& !has_char(host, '*')
    &&& forall|i: int|
        0 <= i < split_on(host, '.').len() ==> valid_label(#[trigger] split_on(host, '.')[i])
    &&& has_char(host, '.')
}

/// Whether `s` holds `c`.
fn has_char_str(s: &str, c: char) -> (b: bool)
    ensures
        b == has_char(s@, c),
{
    let v = chars_of(s);
    match find_char(&v, c) {
        Some(i) => {
            assert(v@[i as int] == c);
            true
        },
        None => false,
    }
}

/// A valid site domain: dotted DNS labels, optionally with a leading `*.`.
pub fn validate_domain(d: &str) -> (r: Result<(), RegistryError>)
    ensures
        r is Ok <==> valid_domain(d@),
        r matches Err(e) ==> e@ == (RegistryErrorKind::InvalidDomain, d@),
{
    proof {
        reveal_strlit("*.");
    }
    let host = if starts_with_str(d, "*.") {
        let v = chars_of(d);
        assert(v@.subrange(2, v@.len() as int) == d@.skip(2));
        string_of(&v, 2, v.len())
    } else {
        d.to_string()
    };
    assert(host@ == domain_host(d@));
    if host.as_str().is_empty() || has_char_str(host.as_str(), '*') {
        return Err(RegistryError::InvalidDomain(d.to_string()));
    }
    let labels = split_char(host.as_str(), '.');
    let ghost ls = split_on(host@, '.');
    assert(labels@.map_values(|p: String| p@) == ls);
    let mut i: usize = 0;
    while i < labels.len()
        invariant
            0 <= i <= labels.len(),
            labels@.map_values(|p: String| p@) == ls,
            host@ == domain_host(d@),
            ls == split_on(host@, '.'),
            forall|k: int| 0 <= k < i ==> valid_label(#[trigger] ls[k]),
        decreases labels.len() - i,
    {
        assert(ls[i as int] == labels@[i as int]@);
        if !is_valid_label(labels[i].as_str()) {
            return Err(RegistryError::InvalidDomain(d.to_string()));
        }
        i = i + 1;
    }
    if has_char_str(host.as_str(), '.') {
        Ok(())
    } else {
        Err(RegistryError::InvalidDomain(d.to_string()))
    }
}

/// A domain as stored: trimmed and ASCII-lowercased.
pub open spec fn norm_domain(d: Seq<char>) -> Seq<char> {
    to_lower(trim(d))
}

/// The first element of `s` that satisfies `p`.
pub open spec fn first_where(s: Seq<Seq<char>>, p: spec_fn(Seq<char>) -> bool) -> Option<Seq<char>>
    decreases s.len(),
{
    if s.len() == 0 {
        None
    } else if p(s[0]) {
        Some(s[0])
    } else {
        first_where(s.drop_first(), p)
    }
}

/// `s` with later repetitions dropped, first occurrences in order.
pub open spec fn dedup(s: Seq<Seq<char>>) -> Seq<Seq<char>>
    decreases s.len(),
{
    if s.len() == 0 {
        s
    } else if dedup(s.drop_last()).contains(s.last()) {
        dedup(s.drop_last())
    } else {
        dedup(s.drop_last()).push(s.last())
    }
}

/// Each requested domain normalized.
pub open spec fn normalize_all(ds: Seq<Seq<char>>) -> Seq<Seq<char>> {
    ds.map_values(|d: Seq<char>| norm_domain(d))
}

/// The domains of the first entry named `name`.
pub open spec fn spec_domains_of(es: Seq<SiteDomains>, name: Seq<char>) -> Option<Seq<Seq<char>>>
    decreases es.len(),
{
    if es.len() == 0 {
        None
    } else if es[0].name@ == name {
        Some(str_views(es[0].domains@))
    } else {
        spec_domains_of(es.drop_first(), name)
    }
}

/// Some entry not named `skip` lists `d`.
pub open spec fn listed_by_other(es: Seq<SiteDomains>, skip: Seq<char>, d: Seq<char>) -> bool {
    exists|k: int| 0 <= k < es.len() && #[trigger] es[k].name@ != skip && str_views(es[k].domains@).contains(d)
}

/// A domain that [`validate_domain`] rejects.
pub open spec fn invalid_domain_pred() -> spec_fn(Seq<char>) -> bool {
    |d: Seq<char>| !valid_domain(d)
}

/// A domain some other site already uses, locally or publicly.
pub open spec fn taken_pred(mine: Seq<SiteDomains>, other: Seq<SiteDomains>, name: Seq<char>) -> spec_fn(Seq<char>) -> bool {
    |d: Seq<char>| listed_by_other(mine, name, d) || listed_by_other(other, name, d)
}

/// A domain of the list `od`.
pub open spec fn member_pred(od: Seq<Seq<char>>) -> spec_fn(Seq<char>) -> bool {
    |d: Seq<char>| od.contains(d)
}

/// How a domain list for `name` is checked against the registry:
/// `mine` is the list being replaced, `other` the site's other list.
pub open spec fn domains_outcome(
    mine: Seq<SiteDomains>,
    other: Seq<SiteDomains>,
    name: Seq<char>,
    ds: Seq<Seq<char>>,
) -> Result<Seq<Seq<char>>, (RegistryErrorKind, Seq<char>)> {
    let nds = normalize_all(ds);
    let norm = dedup(nds);
    match first_where(nds, invalid_domain_pred()) {
        Some(bad) => Err((RegistryErrorKind::InvalidDomain, bad)),
        None => if norm.len() == 0 {
            Err((RegistryErrorKind::NoDomains, seq![]))
        } else {
            match first_where(norm, taken_pred(mine, other, name)) {
                Some(t) => Err((RegistryErrorKind::DomainTaken, t)),
                None => match spec_domains_of(other, name) {
                    Some(od) => match first_where(norm, member_pred(od)) {
                        Some(t) => Err((RegistryErrorKind::DomainTaken, t)),
                        None => Ok(norm),
                    },
                    None => Ok(norm),
                },
            }
        },
    }
}

/// Index of the first entry named `name`.
fn find_entry(es: &Vec<SiteDomains>, name: &str) -> (r: Option<usize>)
    ensures
        match r {
            Some(i) => i < es@.len() && es@[i as int].name@ == name@ && spec_domains_of(es@, name@)
                == Some(str_views(es@[i as int].domains@)),
            None => spec_domains_of(es@, name@) is None,
        },
{
    let mut i: usize = 0;
    assert(es@.skip(0) == es@);
    while i < es.len()
        invariant
            0 <= i <= es.len(),
            spec_domains_of(es@.skip(i as int), name@) == spec_domains_of(es@, name@),
        decreases es.len() - i,
    {
        assert(es@.skip(i as int)[0] == es@[i as int]);
        assert(es@.skip(i as int).drop_first() == es@.skip(i + 1));
        if str_eq(es[i].name.as_str(), name) {
            return Some(i);
        }
        i = i + 1;
    }
    None
}

/// Whether the string list `v` holds `d`.
fn list_has(v: &Vec<String>, d: &str) -> (b: bool)
    ensures
        b == str_views(v@).contains(d@),
{
    let mut i: usize = 0;
    while i < v.len()
        invariant
            0 <= i <= v.len(),
            forall|k: int| 0 <= k < i ==> v@[k]@ != d@,
        decreases v.len() - i,
    {
        if str_eq(v[i].as_str(), d) {
            assert(str_views(v@)[i as int] == d@);
            return true;
        }
        i = i + 1;
    }
    proof {
        if str_views(v@).contains(d@) {
            let k = choose|k: int| 0 <= k < str_views(v@).len() && str_views(v@)[k] == d@;
            assert(v@[k]@ == d@);
        }
    }
    false
}

/// Whether an entry not named `skip` lists `d`.
fn listed_by_other_exec(es: &Vec<SiteDomains>, skip: &str, d: &str) -> (b: bool)
    ensures
        b == listed_by_other(es@, skip@, d@),
{
    let mut i: usize = 0;
    while i < es.len()
        invariant
            0 <= i <= es.len(),
            forall|k: int|
                0 <= k < i ==> !(#[trigger] es@[k].name@ != skip@ && str_views(es@[k].domains@).contains(d@)),
        decreases es.len() - i,
    {
        if !str_eq(es[i].name.as_str(), skip) && list_has(&es[i].domains, d) {
            return true;
        }
        i = i + 1;
    }
    false
}

/// Trim, lowercase and validate each requested domain (first invalid one
/// fails), then drop repetitions.
fn normalize_domain_list(domains: &[String]) -> (r: Result<Vec<String>, RegistryError>)
    ensures
        ({
            let nds = normalize_all(str_views(domains@));
            match r {
                Ok(v) => first_where(nds, invalid_domain_pred()) is None && str_views(v@)
                    == dedup(nds),
                Err(e) => first_where(nds, invalid_domain_pred()) == Some(e@.1) && e@.0
                    == RegistryErrorKind::InvalidDomain,
            }
        }),
{
    let ghost nds = normalize_all(str_views(domains@));
    let mut norm: Vec<String> = Vec::new();
    let mut i: usize = 0;
    assert(nds.skip(0) == nds);
    while i < domains.len()
        invariant
            0 <= i <= domains.len(),
            nds == normalize_all(str_views(domains@)),
            first_where(nds.skip(i as int), invalid_domain_pred()) == first_where(
                nds,
                invalid_domain_pred(),
            ),
            str_views(norm@) == dedup(nds.take(i as int)),
        decreases domains.len() - i,
    {
        let t = trim_str(domains[i].as_str());
        let d = to_lower_str(t.as_str());
        assert(d@ == nds[i as int]);
        assert(nds.skip(i as int)[0] == nds[i as int]);
        assert(nds.skip(i as int).drop_first() == nds.skip(i + 1));
        match validate_domain(d.as_str()) {
            Ok(()) => {},
            Err(e) => {
                return Err(e);
            },
        }
        let ghost prev = str_views(norm@);
        assert(nds.take(i + 1).drop_last() == nds.take(i as int));
        assert(nds.take(i + 1).last() == nds[i as int]);
        if !list_has(&norm, d.as_str()) {
            norm.push(d);
            assert(str_views(norm@) == prev.push(nds[i as int]));
        }
        i = i + 1;
    }
    assert(nds.take(i as int) == nds);
    assert(nds.skip(i as int).len() == 0);
    Ok(norm)
}

/// Check a domain list for `name` against the registry (`mine` holds the
/// list being replaced, `other` the site's other kind of domains).
fn check_domains(mine: &Vec<SiteDomains>, other: &Vec<SiteDomains>, name: &str, domains: &[String]) -> (r: Result<Vec<String>, RegistryError>)
    ensures
        match r {
            Ok(v) => domains_outcome(mine@, other@, name@, str_views(domains@)) == Ok::<_, (RegistryErrorKind, Seq<char>)>(str_views(v@)),
            Err(e) => domains_outcome(mine@, other@, name@, str_views(domains@)) == Err::<Seq<Seq<char>>, _>(e@),
        },
{
    let norm = match normalize_domain_list(domains) {
        Ok(v) => v,
        Err(e) => {
            return Err(e);
        },
    };
    if norm.len() == 0 {
        return Err(RegistryError::NoDomains);
    }
    let ghost nv = str_views(norm@);
    let ghost taken = taken_pred(mine@, other@, name@);
    let mut i: usize = 0;
    assert(nv.skip(0) == nv);
    while i < norm.len()
        invariant
            0 <= i <= norm.len(),
            nv == str_views(norm@),
            nv == dedup(normalize_all(str_views(domains@))),
            nv.len() > 0,
            first_where(normalize_all(str_views(domains@)), invalid_domain_pred()) is None,
            taken == taken_pred(mine@, other@, name@),
            first_where(nv.skip(i as int), taken) == first_where(nv, taken),
        decreases norm.len() - i,
    {
        assert(nv.skip(i as int)[0] == nv[i as int]);
        assert(nv.skip(i as int).drop_first() == nv.skip(i + 1));
        assert(nv[i as int] == norm@[i as int]@);
        if listed_by_other_exec(mine, name, norm[i].as_str()) || listed_by_other_exec(
            other,
            name,
            norm[i].as_str(),
        ) {
            return Err(RegistryError::DomainTaken(norm[i].clone()));
        }
        i = i + 1;
    }
    assert(nv.skip(i as int).len() == 0);
    match find_entry(other, name) {
        Some(k) => {
            let od = &other[k].domains;
            let ghost odv = str_views(od@);
            let ghost own = member_pred(odv);
            let mut i: usize = 0;
            assert(nv.skip(0) == nv);
            while i < norm.len()
                invariant
                    0 <= i <= norm.len(),
                    nv == str_views(norm@),
                    odv == str_views(od@),
                    nv == dedup(normalize_all(str_views(domains@))),
                    nv.len() > 0,
                    first_where(normalize_all(str_views(domains@)), invalid_domain_pred()) is None,
                    first_where(nv, taken_pred(mine@, other@, name@)) is None,
                    spec_domains_of(other@, name@) == Some(odv),
                    own == member_pred(odv),
                    first_where(nv.skip(i as int), own) == first_where(nv, own),
                decreases norm.len() - i,
            {
                assert(nv.skip(i as int)[0] == nv[i as int]);
                assert(nv.skip(i as int).drop_first() == nv.skip(i + 1));
                assert(nv[i as int] == norm@[i as int]@);
                if list_has(od, norm[i].as_str()) {
                    return Err(RegistryError::DomainTaken(norm[i].clone()));
                }
                i = i + 1;
            }
            assert(nv.skip(i as int).len() == 0);
            Ok(norm)
        },
        None => Ok(norm),
    }
}

/// An entry that carries a site name.
pub trait Named {
    spec fn name_view(&self) -> Seq<char>;

    fn name_str(&self) -> (r: &str)
        ensures
            r@ == self.name_view(),
    ;
}

impl Named for RegisteredSite {
    open spec fn name_view(&self) -> Seq<char> {
        self.name@
    }

    fn name_str(&self) -> (r: &str) {
        self.name.as_str()
    }
}

impl Named for ProxySite {
    open spec fn name_view(&self) -> Seq<char> {
        self.name@
    }

    fn name_str(&self) -> (r: &str) {
        self.name.as_str()
    }
}

impl Named for SiteDomains {
    open spec fn name_view(&self) -> Seq<char> {
        self.name@
    }

    fn name_str(&self) -> (r: &str) {
        self.name.as_str()
    }
}

/// Keeps the entries not named `name`.
pub open spec fn not_named<T: Named>(name: Seq<char>) -> spec_fn(T) -> bool {
    |e: T| e.name_view() != name
}

/// Some entry is named `name`.
pub open spec fn has_named<T: Named>(s: Seq<T>, name: Seq<char>) -> bool {
    exists|k: int| 0 <= k < s.len() && #[trigger] s[k].name_view() == name
}

/// Drop the entries named `name`, keeping the order of the rest; tells
/// whether any was dropped.
fn drop_named<T: Named>(v: &mut Vec<T>, name: &str) -> (removed: bool)
    ensures
        final(v)@ == old(v)@.filter(not_named::<T>(name@)),
        removed == has_named(old(v)@, name@),
{
    let mut kept: Vec<T> = Vec::new();
    let ghost src = v@;
    let mut removed = false;
    let mut i: usize = 0;
    let n = v.len();
    while i < n
        invariant
            0 <= i <= n,
            n == src.len(),
            v@.len() == n - i,
            forall|k: int| 0 <= k < v@.len() ==> v@[k] == src[(i + k) as int],
            kept@ == src.take(i as int).filter(not_named::<T>(name@)),
            removed == has_named(src.take(i as int), name@),
        decreases n - i,
    {
        let e = v.remove(0);
        proof {
            assert(e == src[i as int]);
            reveal(Seq::filter);
            assert(src.take(i + 1).drop_last() == src.take(i as int));
            assert(src.take(i + 1).last() == src[i as int]);
        }
        if str_eq(e.name_str(), name) {
            removed = true;
            assert(src.take(i + 1)[i as int] == e);
        } else {
            kept.push(e);
            proof {
                if has_named(src.take(i + 1), name@) {
                    let k = choose|k: int| 0 <= k < src.take(i + 1).len() && #[trigger] src.take(i + 1)[k].name_view() == name@;
                    assert(src.take(i as int)[k] == src.take(i + 1)[k]);
                }
            }
        }
        proof {
            if has_named(src.take(i as int), name@) {
                let k = choose|k: int| 0 <= k < src.take(i as int).len() && #[trigger] src.take(i as int)[k].name_view() == name@;
                assert(src.take(i + 1)[k] == src.take(i as int)[k]);
            }
        }
        i = i + 1;
    }
    assert(src.take(i as int) == src);
    *v = kept;
    removed
}

// ---------------------------------------------------------------------------
// The registry
// ---------------------------------------------------------------------------

impl Default for SiteRegistry {
    fn default() -> (r: SiteRegistry)
        ensures
            r.site_list().len() == 0,
            r.proxy_list().len() == 0,
            r.domain_list().len() == 0,
            r.public_domain_list().len() == 0,
    {
        SiteRegistry { sites: Vec::new(), proxies: Vec::new(), domains: Vec::new(), public_domains: Vec::new() }
    }
}

impl SiteRegistry {
    pub closed spec fn site_list(&self) -> Seq<RegisteredSite> {
        self.sites@
    }

    pub closed spec fn proxy_list(&self) -> Seq<ProxySite> {
        self.proxies@
    }

    pub closed spec fn domain_list(&self) -> Seq<SiteDomains> {
        self.domains@
    }

    pub closed spec fn public_domain_list(&self) -> Seq<SitePublicDomains> {
        self.public_domains@
    }

    /// A registry holding exactly the given lists (as read from storage).
    pub fn from_parts(
        sites: Vec<RegisteredSite>,
        proxies: Vec<ProxySite>,
        domains: Vec<SiteDomains>,
        public_domains: Vec<SitePublicDomains>,
    ) -> (r: SiteRegistry)
        ensures
            r.site_list() == sites@,
            r.proxy_list() == proxies@,
            r.domain_list() == domains@,
            r.public_domain_list() == public_domains@,
    {
        SiteRegistry { sites, proxies, domains, public_domains }
    }

    pub fn sites(&self) -> (r: &[RegisteredSite])
        ensures
            r@ == self.site_list(),
    {
        self.sites.as_slice()
    }

    pub fn proxies(&self) -> (r: &[ProxySite])
        ensures
            r@ == self.proxy_list(),
    {
        self.proxies.as_slice()
    }

    /// All local-domain entries, in stored order.
    pub fn domain_entries(&self) -> (r: &[SiteDomains])
        ensures
            r@ == self.domain_list(),
    {
        self.domains.as_slice()
    }

    /// All public-domain entries, in stored order.
    pub fn public_domain_entries(&self) -> (r: &[SitePublicDomains])
        ensures
            r@ == self.public_domain_list(),
    {
        self.public_domains.as_slice()
    }

    /// Register folder `root` as site `name`. `canonical_root` is the folder's
    /// resolved path when it is an existing directory, `None` when it is not.
    pub fn add(&mut self, name: &str, root: &str, canonical_root: Option<&str>) -> (r: Result<(), RegistryError>)
        ensures
            !valid_label(name@) ==> (r matches Err(e) && e@ == (RegistryErrorKind::InvalidName, name@)),
            valid_label(name@) && canonical_root is None ==> (r matches Err(e) && e@ == (RegistryErrorKind::RootNotFound, root@)),
            valid_label(name@) && canonical_root is Some && has_named(old(self).site_list(), name@)
                ==> (r matches Err(e) && e@ == (RegistryErrorKind::Duplicate, name@)),
            r is Ok <==> valid_label(name@) && canonical_root is Some && !has_named(old(self).site_list(), name@),
            r is Ok ==> final(self).site_list().drop_last() == old(self).site_list()
                && final(self).site_list().last().name@ == name@
                && final(self).site_list().last().root@ == canonical_root.unwrap()@,
            r is Err ==> final(self).site_list() == old(self).site_list(),
            final(self).proxy_list() == old(self).proxy_list(),
            final(self).domain_list() == old(self).domain_list(),
            final(self).public_domain_list() == old(self).public_domain_list(),
    {
        if validate_site_name(name).is_err() {
            return Err(RegistryError::InvalidName(name.to_string()));
        }
        let canon = match canonical_root {
            Some(c) => c,
            None => {
                return Err(RegistryError::RootNotFound(root.to_string()));
            },
        };
        if has_name(&self.sites, name) {
            return Err(RegistryError::Duplicate(name.to_string()));
        }
        self.sites.push(RegisteredSite { name: name.to_string(), root: canon.to_string() });
        assert(self.sites@.drop_last() == old(self).sites@);
        Ok(())
    }

    /// Register proxy site `name` with `routes`.
    pub fn add_proxy(&mut self, name: &str, routes: &[ProxyRoute], websocket: bool) -> (r: Result<(), RegistryError>)
        ensures
            !valid_label(name@) ==> (r matches Err(e) && e@ == (RegistryErrorKind::InvalidName, name@)),
            valid_label(name@) && (has_named(old(self).site_list(), name@) || has_named(old(self).proxy_list(), name@))
                ==> (r matches Err(e) && e@ == (RegistryErrorKind::Duplicate, name@)),
            valid_label(name@) && !has_named(old(self).site_list(), name@) && !has_named(old(self).proxy_list(), name@)
                ==> match r {
                    Ok(_) => spec_validate_routes(routes@) == Ok::<_, (RegistryErrorKind, Seq<char>)>(route_views(final(self).proxy_list().last().routes@)),
                    Err(e) => spec_validate_routes(routes@) == Err::<Seq<(Seq<char>, Seq<char>)>, _>(e@),
                },
            r is Ok ==> final(self).proxy_list().drop_last() == old(self).proxy_list()
                && final(self).proxy_list().last().name@ == name@
                && final(self).proxy_list().last().websocket == websocket,
            r is Err ==> final(self).proxy_list() == old(self).proxy_list(),
            final(self).site_list() == old(self).site_list(),
            final(self).domain_list() == old(self).domain_list(),
            final(self).public_domain_list() == old(self).public_domain_list(),
    {
        if validate_site_name(name).is_err() {
            return Err(RegistryError::InvalidName(name.to_string()));
        }
        if has_name(&self.sites, name) || has_name(&self.proxies, name) {
            return Err(RegistryError::Duplicate(name.to_string()));
        }
        let routes = match validate_routes(routes) {
            Ok(v) => v,
            Err(e) => {
                return Err(e);
            },
        };
        self.proxies.push(ProxySite { name: name.to_string(), websocket, routes, root: None });
        assert(self.proxies@.drop_last() == old(self).proxies@);
        Ok(())
    }

    /// Replace the routes and websocket flag of proxy site `name` (the first
    /// entry of that name).
    pub fn update_proxy(&mut self, name: &str, routes: &[ProxyRoute], websocket: bool) -> (r: Result<(), RegistryError>)
        ensures
            spec_validate_routes(routes@) is Err ==> (r matches Err(e) && Err::<Seq<(Seq<char>, Seq<char>)>, _>(e@) == spec_validate_routes(routes@)),
            spec_validate_routes(routes@) is Ok && !has_named(old(self).proxy_list(), name@)
                ==> (r matches Err(e) && e@ == (RegistryErrorKind::NotFound, name@)),
            r is Ok <==> spec_validate_routes(routes@) is Ok && has_named(old(self).proxy_list(), name@),
            r is Ok ==> exists|i: int| {
                &&& 0 <= i < old(self).proxy_list().len()
                &&& #[trigger] old(self).proxy_list()[i].name@ == name@
                &&& forall|j: int| 0 <= j < i ==> old(self).proxy_list()[j].name@ != name@
                &&& final(self).proxy_list().len() == old(self).proxy_list().len()
                &&& forall|j: int| 0 <= j < old(self).proxy_list().len() && j != i ==> final(self).proxy_list()[j] == old(self).proxy_list()[j]
                &&& final(self).proxy_list()[i].name == old(self).proxy_list()[i].name
                &&& final(self).proxy_list()[i].websocket == websocket
                &&& spec_validate_routes(routes@) == Ok::<_, (RegistryErrorKind, Seq<char>)>(route_views(final(self).proxy_list()[i].routes@))
            },
            r is Err ==> final(self).proxy_list() == old(self).proxy_list(),
            final(self).site_list() == old(self).site_list(),
            final(self).domain_list() == old(self).domain_list(),
            final(self).public_domain_list() == old(self).public_domain_list(),
    {
        let valid = match validate_routes(routes) {
            Ok(v) => v,
            Err(e) => {
                return Err(e);
            },
        };
        let mut i: usize = 0;
        while i < self.proxies.len()
            invariant
                0 <= i <= self.proxies@.len(),
                spec_validate_routes(routes@) == Ok::<_, (RegistryErrorKind, Seq<char>)>(route_views(valid@)),
                self.proxies@ == old(self).proxies@,
                self.sites@ == old(self).sites@,
                self.domains@ == old(self).domains@,
                self.public_domains@ == old(self).public_domains@,
                forall|j: int| 0 <= j < i ==> old(self).proxies@[j].name@ != name@,
            decreases self.proxies@.len() - i,
        {
            if str_eq(self.proxies[i].name.as_str(), name) {
                let mut p = self.proxies.remove(i);
                p.routes = valid;
                p.websocket = websocket;
                self.proxies.insert(i, p);
                assert(old(self).proxy_list()[i as int].name@ == name@);
                assert(old(self).proxy_list()[i as int].name_view() == name@);
                assert(forall|j: int| 0 <= j < old(self).proxy_list().len() && j != i ==> self.proxy_list()[j] == old(self).proxy_list()[j]);
                assert(self.proxy_list()[i as int].routes@ == valid@);
                return Ok(());
            }
            i = i + 1;
        }
        proof {
            if has_named(old(self).proxy_list(), name@) {
                let k = choose|k: int| 0 <= k < old(self).proxy_list().len() && #[trigger] old(self).proxy_list()[k].name_view() == name@;
                assert(old(self).proxies@[k].name@ != name@);
            }
        }
        Err(RegistryError::NotFound(name.to_string()))
    }

    /// The local domains of site `name`, if it has any.
    pub fn domains_for(&self, name: &str) -> (r: Option<&[String]>)
        ensures
            match r {
                Some(s) => spec_domains_of(self.domain_list(), name@) == Some(str_views(s@)),
                None => spec_domains_of(self.domain_list(), name@) is None,
            },
    {
        match find_entry(&self.domains, name) {
            Some(i) => Some(self.domains[i].domains.as_slice()),
            None => None,
        }
    }

    /// The public domains of site `name`, if it has any.
    pub fn public_domains_for(&self, name: &str) -> (r: Option<&[String]>)
        ensures
            match r {
                Some(s) => spec_domains_of(self.public_domain_list(), name@) == Some(str_views(s@)),
                None => spec_domains_of(self.public_domain_list(), name@) is None,
            },
    {
        match find_entry(&self.public_domains, name) {
            Some(i) => Some(self.public_domains[i].domains.as_slice()),
            None => None,
        }
    }

    /// Set the local domains of site `name`: normalized (trimmed,
    /// lowercased, repetitions dropped, first-seen order), each valid, none
    /// used by another site (local or public) nor among this site's public
    /// domains.
    pub fn set_domains(&mut self, name: &str, domains: &[String]) -> (r: Result<(), RegistryError>)
        ensures
            match r {
                Ok(_) => domains_outcome(old(self).domain_list(), old(self).public_domain_list(), name@, str_views(domains@))
                    == Ok::<_, (RegistryErrorKind, Seq<char>)>(str_views(final(self).domain_list().last().domains@)),
                Err(e) => domains_outcome(old(self).domain_list(), old(self).public_domain_list(), name@, str_views(domains@))
                    == Err::<Seq<Seq<char>>, _>(e@),
            },
            r is Ok ==> final(self).domain_list() == old(self).domain_list().filter(not_named::<SiteDomains>(name@)).push(final(self).domain_list().last())
                && final(self).domain_list().last().name@ == name@,
            r is Err ==> final(self).domain_list() == old(self).domain_list(),
            final(self).site_list() == old(self).site_list(),
            final(self).proxy_list() == old(self).proxy_list(),
            final(self).public_domain_list() == old(self).public_domain_list(),
    {
        let norm = match check_domains(&self.domains, &self.public_domains, name, domains) {
            Ok(v) => v,
            Err(e) => {
                return Err(e);
            },
        };
        drop_named(&mut self.domains, name);
        self.domains.push(SiteDomains { name: name.to_string(), domains: norm });
        Ok(())
    }

    /// Set the public domains of site `name`, under the same rules as
    /// [`SiteRegistry::set_domains`] with the roles of the two lists swapped.
    pub fn set_public_domains(&mut self, name: &str, domains: &[String]) -> (r: Result<(), RegistryError>)
        ensures
            match r {
                Ok(_) => domains_outcome(old(self).public_domain_list(), old(self).domain_list(), name@, str_views(domains@))
                    == Ok::<_, (RegistryErrorKind, Seq<char>)>(str_views(final(self).public_domain_list().last().domains@)),
                Err(e) => domains_outcome(old(self).public_domain_list(), old(self).domain_list(), name@, str_views(domains@))
                    == Err::<Seq<Seq<char>>, _>(e@),
            },
            r is Ok ==> final(self).public_domain_list() == old(self).public_domain_list().filter(not_named::<SiteDomains>(name@)).push(final(self).public_domain_list().last())
                && final(self).public_domain_list().last().name@ == name@,
            r is Err ==> final(self).public_domain_list() == old(self).public_domain_list(),
            final(self).site_list() == old(self).site_list(),
            final(self).proxy_list() == old(self).proxy_list(),
            final(self).domain_list() == old(self).domain_list(),
    {
        let norm = match check_domains(&self.public_domains, &self.domains, name, domains) {
            Ok(v) => v,
            Err(e) => {
                return Err(e);
            },
        };
        drop_named(&mut self.public_domains, name);
        self.public_domains.push(SiteDomains { name: name.to_string(), domains: norm });
        Ok(())
    }

    /// Forget site `name` everywhere: folder sites, proxies, local and public
    /// domains. Tells whether anything was removed.
    pub fn remove(&mut self, name: &str) -> (r: bool)
        ensures
            final(self).site_list() == old(self).site_list().filter(not_named::<RegisteredSite>(name@)),
            final(self).proxy_list() == old(self).proxy_list().filter(not_named::<ProxySite>(name@)),
            final(self).domain_list() == old(self).domain_list().filter(not_named::<SiteDomains>(name@)),
            final(self).public_domain_list() == old(self).public_domain_list().filter(not_named::<SiteDomains>(name@)),
            r == (has_named(old(self).site_list(), name@) || has_named(old(self).proxy_list(), name@)
                || has_named(old(self).domain_list(), name@) || has_named(old(self).public_domain_list(), name@)),
    {
        let a = drop_named(&mut self.sites, name);
        let b = drop_named(&mut self.proxies, name);
        let c = drop_named(&mut self.domains, name);
        let d = drop_named(&mut self.public_domains, name);
        a || b || c || d
    }
}

/// Whether an entry of `v` is named `name`.
fn has_name<T: Named>(v: &Vec<T>, name: &str) -> (b: bool)
    ensures
        b == has_named(v@, name@),
{
    let mut i: usize = 0;
    while i < v.len()
        invariant
            0 <= i <= v.len(),
            forall|k: int| 0 <= k < i ==> v@[k].name_view() != name@,
        decreases v.len() - i,
    {
        if str_eq(v[i].name_str(), name) {
            return true;
        }
        i = i + 1;
    }
    false
}

// ---------------------------------------------------------------------------
// Laws
// ---------------------------------------------------------------------------

/// The first entry named `n` of `s.push(e)`, when no entry of `s` is named
/// `n` and `e` is, is `e`.
proof fn lemma_domains_of_push(s: Seq<SiteDomains>, e: SiteDomains, n: Seq<char>)
    requires
        forall|k: int| 0 <= k < s.len() ==> #[trigger] s[k].name@ != n,
        e.name@ == n,
    ensures
        spec_domains_of(s.push(e), n) == Some(str_views(e.domains@)),
    decreases s.len(),
{
    if s.len() > 0 {
        assert(s.push(e).drop_first() == s.drop_first().push(e));
        assert(s.push(e)[0] == s[0]);
        assert forall|k: int| 0 <= k < s.drop_first().len() implies #[trigger] s.drop_first()[k].name@ != n by {
            assert(s.drop_first()[k] == s[k + 1]);
        }
        lemma_domains_of_push(s.drop_first(), e, n);
    } else {
        assert(s.push(e)[0] == e);
    }
}

/// No entry named `n` is found in a list without such entries.
proof fn lemma_domains_of_absent(s: Seq<SiteDomains>, n: Seq<char>)
    requires
        forall|k: int| 0 <= k < s.len() ==> #[trigger] s[k].name@ != n,
    ensures
        spec_domains_of(s, n) is None,
    decreases s.len(),
{
    if s.len() > 0 {
        assert forall|k: int| 0 <= k < s.drop_first().len() implies #[trigger] s.drop_first()[k].name@ != n by {
            assert(s.drop_first()[k] == s[k + 1]);
        }
        lemma_domains_of_absent(s.drop_first(), n);
    }
}

proof fn lemma_filter_not_named(s: Seq<SiteDomains>, n: Seq<char>)
    ensures
        forall|k: int| 0 <= k < s.filter(not_named::<SiteDomains>(n)).len() ==> #[trigger] s.filter(not_named::<SiteDomains>(n))[k].name@ != n,
{
    broadcast use Seq::lemma_filter_pred;
    assert forall|k: int| 0 <= k < s.filter(not_named::<SiteDomains>(n)).len() implies #[trigger] s.filter(not_named::<SiteDomains>(n))[k].name@ != n by {
        assert(not_named::<SiteDomains>(n)(s.filter(not_named::<SiteDomains>(n))[k]));
    }
}

/// What is written is read back: once `set_domains(name, ds)` (or
/// `set_public_domains`) replaced the list of `name` by the entry `e`,
/// looking `name` up gives the normalized domains that were stored.
pub proof fn lemma_domains_read_back(before: Seq<SiteDomains>, e: SiteDomains, name: Seq<char>)
    requires
        e.name@ == name,
    ensures
        spec_domains_of(before.filter(not_named::<SiteDomains>(name)).push(e), name) == Some(str_views(e.domains@)),
{
    lemma_filter_not_named(before, name);
    lemma_domains_of_push(before.filter(not_named::<SiteDomains>(name)), e, name);
}

/// A removed site has no domains left: after `remove(name)` neither
/// `domains_for(name)` nor `public_domains_for(name)` finds anything, and no
/// folder or proxy site of that name remains.
pub proof fn lemma_removed_is_gone(
    sites: Seq<RegisteredSite>,
    proxies: Seq<ProxySite>,
    local: Seq<SiteDomains>,
    public: Seq<SiteDomains>,
    name: Seq<char>,
)
    ensures
        spec_domains_of(local.filter(not_named::<SiteDomains>(name)), name) is None,
        spec_domains_of(public.filter(not_named::<SiteDomains>(name)), name) is None,
        !has_named(sites.filter(not_named::<RegisteredSite>(name)), name),
        !has_named(proxies.filter(not_named::<ProxySite>(name)), name),
{
    broadcast use Seq::lemma_filter_pred;
    lemma_filter_not_named(local, name);
    lemma_filter_not_named(public, name);
    lemma_domains_of_absent(local.filter(not_named::<SiteDomains>(name)), name);
    lemma_domains_of_absent(public.filter(not_named::<SiteDomains>(name)), name);
    if has_named(sites.filter(not_named::<RegisteredSite>(name)), name) {
        let k = choose|k: int| 0 <= k < sites.filter(not_named::<RegisteredSite>(name)).len()
            && #[trigger] sites.filter(not_named::<RegisteredSite>(name))[k].name_view() == name;
        assert(not_named::<RegisteredSite>(name)(sites.filter(not_named::<RegisteredSite>(name))[k]));
    }
    if has_named(proxies.filter(not_named::<ProxySite>(name)), name) {
        let k = choose|k: int| 0 <= k < proxies.filter(not_named::<ProxySite>(name)).len()
            && #[trigger] proxies.filter(not_named::<ProxySite>(name))[k].name_view() == name;
        assert(not_named::<ProxySite>(name)(proxies.filter(not_named::<ProxySite>(name))[k]));
    }
}

// ---------------------------------------------------------------------------
// One site per domain
// ---------------------------------------------------------------------------

/// `d` is one of the domains of the entry `e`.
pub open spec fn has_domain(e: SiteDomains, d: Seq<char>) -> bool {
    str_views(e.domains@).contains(d)
}

/// Within the list `a`, entries with one name are one entry, and entries
/// with different names share no domain.
pub open spec fn exclusive_within(a: Seq<SiteDomains>) -> bool {
    &&& forall|x: SiteDomains, y: SiteDomains|
        #![trigger a.contains(x), a.contains(y)]
        a.contains(x) && a.contains(y) && x.name@ == y.name@ ==> x == y
    &&& forall|x: SiteDomains, y: SiteDomains, d: Seq<char>|
        #![trigger has_domain(x, d), has_domain(y, d)]
        a.contains(x) && a.contains(y) && x.name@ != y.name@ && has_domain(x, d) ==> !has_domain(y, d)
}

/// No domain is in both lists.
pub open spec fn exclusive_between(a: Seq<SiteDomains>, b: Seq<SiteDomains>) -> bool {
    forall|x: SiteDomains, y: SiteDomains, d: Seq<char>|
        #![trigger has_domain(x, d), has_domain(y, d)]
        a.contains(x) && b.contains(y) && has_domain(x, d) ==> !has_domain(y, d)
}

/// Each domain belongs to one site only, and is either local or public.
pub open spec fn domains_exclusive(local: Seq<SiteDomains>, public: Seq<SiteDomains>) -> bool {
    exclusive_within(local) && exclusive_within(public) && exclusive_between(local, public)
}

proof fn lemma_first_where_none(s: Seq<Seq<char>>, p: spec_fn(Seq<char>) -> bool, x: Seq<char>)
    requires
        first_where(s, p) is None,
        s.contains(x),
    ensures
        !p(x),
    decreases s.len(),
{
    let i = choose|i: int| 0 <= i < s.len() && s[i] == x;
    if i > 0 {
        assert(s.drop_first()[i - 1] == x);
        lemma_first_where_none(s.drop_first(), p, x);
    }
}

proof fn lemma_domains_of_entry(a: Seq<SiteDomains>, y: SiteDomains)
    requires
        a.contains(y),
        forall|x: SiteDomains| #[trigger] a.contains(x) && x.name@ == y.name@ ==> x == y,
    ensures
        spec_domains_of(a, y.name@) == Some(str_views(y.domains@)),
    decreases a.len(),
{
    if a[0].name@ != y.name@ {
        let i = choose|i: int| 0 <= i < a.len() && a[i] == y;
        assert(a.drop_first()[i - 1] == y);
        assert forall|x: SiteDomains| a.drop_first().contains(x) && x.name@ == y.name@ implies x == y by {
            let j = choose|j: int| 0 <= j < a.drop_first().len() && a.drop_first()[j] == x;
            assert(a[j + 1] == x);
            assert(a.contains(x));
        }
        lemma_domains_of_entry(a.drop_first(), y);
    } else {
        assert(a.contains(a[0]));
    }
}

proof fn lemma_between_sym(a: Seq<SiteDomains>, b: Seq<SiteDomains>)
    requires
        exclusive_between(a, b),
    ensures
        exclusive_between(b, a),
{
    assert forall|x: SiteDomains, y: SiteDomains, d: Seq<char>|
        b.contains(x) && a.contains(y) && has_domain(x, d) implies !has_domain(y, d) by {
        if has_domain(y, d) {
            assert(!has_domain(x, d));
        }
    }
}

/// Replacing the entry of `name` in `mine` by `stored`, as the domain
/// check allowed, keeps the lists exclusive.
proof fn lemma_replace_keeps_exclusive(
    mine: Seq<SiteDomains>,
    other: Seq<SiteDomains>,
    name: Seq<char>,
    ds: Seq<Seq<char>>,
    stored: SiteDomains,
)
    requires
        exclusive_within(mine),
        exclusive_within(other),
        exclusive_between(mine, other),
        stored.name@ == name,
        domains_outcome(mine, other, name, ds) == Ok::<_, (RegistryErrorKind, Seq<char>)>(str_views(stored.domains@)),
    ensures
        exclusive_within(mine.filter(not_named::<SiteDomains>(name)).push(stored)),
        exclusive_between(mine.filter(not_named::<SiteDomains>(name)).push(stored), other),
{
    let nn = not_named::<SiteDomains>(name);
    let f = mine.filter(nn);
    let m2 = f.push(stored);
    let norm = str_views(stored.domains@);
    assert(first_where(norm, taken_pred(mine, other, name)) is None);
    assert forall|x: SiteDomains| #[trigger] m2.contains(x) && x != stored implies mine.contains(x) && x.name@ != name by {
        let i = choose|i: int| 0 <= i < m2.len() && m2[i] == x;
        assert(i < f.len());
        assert(f.contains(x));
        mine.lemma_filter_contains_rev(nn, x);
        mine.lemma_filter_pred(nn, i);
    }
    // What the check established of each stored domain.
    assert forall|y: SiteDomains, d: Seq<char>|
        #![trigger has_domain(stored, d), has_domain(y, d)]
        has_domain(stored, d) && (mine.contains(y) || other.contains(y)) && y.name@ != name implies !has_domain(y, d) by {
        lemma_first_where_none(norm, taken_pred(mine, other, name), d);
        if mine.contains(y) {
            let k = choose|k: int| 0 <= k < mine.len() && mine[k] == y;
            if has_domain(y, d) {
                assert(listed_by_other(mine, name, d));
            }
        } else {
            let k = choose|k: int| 0 <= k < other.len() && other[k] == y;
            if has_domain(y, d) {
                assert(listed_by_other(other, name, d));
            }
        }
    }
    assert forall|y: SiteDomains, d: Seq<char>|
        #![trigger has_domain(stored, d), has_domain(y, d)]
        has_domain(stored, d) && other.contains(y) && y.name@ == name implies !has_domain(y, d) by {
        lemma_domains_of_entry(other, y);
        lemma_first_where_none(norm, member_pred(str_views(y.domains@)), d);
    }
    assert forall|x: SiteDomains, y: SiteDomains|
        #![trigger m2.contains(x), m2.contains(y)]
        m2.contains(x) && m2.contains(y) && x.name@ == y.name@ implies x == y by {
        if x != stored && y != stored {
            assert(mine.contains(x) && mine.contains(y));
        }
    }
    assert forall|x: SiteDomains, y: SiteDomains, d: Seq<char>|
        #![trigger has_domain(x, d), has_domain(y, d)]
        m2.contains(x) && m2.contains(y) && x.name@ != y.name@ && has_domain(x, d) implies !has_domain(y, d) by {
        if x != stored && y != stored {
            assert(mine.contains(x) && mine.contains(y));
        } else if x == stored {
            assert(mine.contains(y) && y.name@ != name);
        } else {
            assert(mine.contains(x) && x.name@ != name);
            if has_domain(y, d) {
                assert(!has_domain(x, d));
            }
        }
    }
    assert forall|x: SiteDomains, y: SiteDomains, d: Seq<char>|
        #![trigger has_domain(x, d), has_domain(y, d)]
        m2.contains(x) && other.contains(y) && has_domain(x, d) implies !has_domain(y, d) by {
        if x != stored {
            assert(mine.contains(x));
        }
    }
}

/// Each domain belongs to one site only, and is either local or public:
/// a successful `set_domains(name, ds)`, which replaces the entry of `name`
/// by `stored`, keeps that so.
pub proof fn lemma_set_domains_keeps_exclusive(
    local: Seq<SiteDomains>,
    public: Seq<SiteDomains>,
    name: Seq<char>,
    ds: Seq<Seq<char>>,
    stored: SiteDomains,
)
    requires
        domains_exclusive(local, public),
        stored.name@ == name,
        domains_outcome(local, public, name, ds) == Ok::<_, (RegistryErrorKind, Seq<char>)>(str_views(stored.domains@)),
    ensures
        domains_exclusive(local.filter(not_named::<SiteDomains>(name)).push(stored), public),
{
    lemma_replace_keeps_exclusive(local, public, name, ds, stored);
}

/// The same for a successful `set_public_domains(name, ds)`.
pub proof fn lemma_set_public_domains_keeps_exclusive(
    local: Seq<SiteDomains>,
    public: Seq<SiteDomains>,
    name: Seq<char>,
    ds: Seq<Seq<char>>,
    stored: SiteDomains,
)
    requires
        domains_exclusive(local, public),
        stored.name@ == name,
        domains_outcome(public, local, name, ds) == Ok::<_, (RegistryErrorKind, Seq<char>)>(str_views(stored.domains@)),
    ensures
        domains_exclusive(local, public.filter(not_named::<SiteDomains>(name)).push(stored)),
{
    lemma_between_sym(local, public);
    lemma_replace_keeps_exclusive(public, local, name, ds, stored);
    lemma_between_sym(public.filter(not_named::<SiteDomains>(name)).push(stored), local);
}

proof fn lemma_filter_keeps_within(a: Seq<SiteDomains>, name: Seq<char>)
    requires
        exclusive_within(a),
    ensures
        exclusive_within(a.filter(not_named::<SiteDomains>(name))),
        forall|x: SiteDomains| #[trigger] a.filter(not_named::<SiteDomains>(name)).contains(x) ==> a.contains(x),
{
    let f = a.filter(not_named::<SiteDomains>(name));
    assert forall|x: SiteDomains| #[trigger] f.contains(x) implies a.contains(x) by {
        a.lemma_filter_contains_rev(not_named::<SiteDomains>(name), x);
    }
}

/// Removing a site keeps each domain with one site only.
pub proof fn lemma_remove_keeps_exclusive(local: Seq<SiteDomains>, public: Seq<SiteDomains>, name: Seq<char>)
    requires
        domains_exclusive(local, public),
    ensures
        domains_exclusive(
            local.filter(not_named::<SiteDomains>(name)),
            public.filter(not_named::<SiteDomains>(name)),
        ),
{
    lemma_filter_keeps_within(local, name);
    lemma_filter_keeps_within(public, name);
}

} // verus!
