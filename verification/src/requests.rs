//! The decisions of the admin API and of the list endpoints: request
//! validation, the checks a router's state must pass, the 3x-ui URLs, the
//! proxy's target, the peer to add, and which routes a request concerns.

use vstd::prelude::*;
use vstd::string::*;
use vstd::hash_set::StringHashSet;
use crate::geo::{GeoEntry, domains_of};
use crate::grouping::GroupedRoutes;
use crate::models::{Route, ServerInbound};
use crate::script::route_values;
use crate::session::{is_uuid_v4_text, new_uuid};
use crate::text::{
    contains_text, contains_text_of, push_signed_decimal, signed_decimal, text_eq, to_uppercase,
    trim_end_char, trim_end_char_of, trim_start_char, trim_start_char_of, uppercase,
};
use crate::wireguard::{
    free_host_text, is_first_free_host, next_peer_ip, pool_exhausted, texts,
};

verus! {

/// A route as submitted: its value and its type.
#[derive(Debug, Clone, PartialEq, Eq)]
pub struct RouteItem {
    pub value: String,
    pub route_type: String,
}

/// The route types there are: "domain" and "ip".
pub open spec fn is_route_type_text(t: Seq<char>) -> bool {
    t == "domain"@ || t == "ip"@
}

/// Whether `t` is a route type.
pub fn is_route_type(t: &str) -> (r: bool)
    ensures
        r == is_route_type_text(t@),
{
    text_eq(t, "domain") || text_eq(t, "ip")
}

/// Checks a new route: it needs a value and a known type.
pub fn validate_route(value: &str, route_type: &str) -> (r: Result<(), String>)
    ensures
        if value@.len() == 0 {
            r matches Err(m) && m@ == "value is required"@
        } else if !is_route_type_text(route_type@) {
            r matches Err(m) && m@ == "type must be 'domain' or 'ip'"@
        } else {
            r is Ok
        },
{
    if value.is_empty() {
        return Err(String::from_str("value is required"));
    }
    if !is_route_type(route_type) {
        return Err(String::from_str("type must be 'domain' or 'ip'"));
    }
    Ok(())
}

/// The error of a bulk request's items: the first item of unknown type.
pub open spec fn bulk_item_error(items: Seq<RouteItem>) -> Option<Seq<char>>
    decreases items.len(),
{
    if items.len() == 0 {
        None
    } else {
        match bulk_item_error(items.drop_last()) {
            Some(e) => Some(e),
            None => if is_route_type_text(items.last().route_type@) {
                None
            } else {
                Some("invalid type: "@ + items.last().route_type@)
            },
        }
    }
}

/// Checks a bulk route request: it must not be empty, and every item must
/// have a known type (the first that does not is reported).
pub fn validate_bulk_routes(items: &[RouteItem]) -> (r: Result<(), String>)
    ensures
        if items@.len() == 0 {
            r matches Err(m) && m@ == "empty list"@
        } else {
            match bulk_item_error(items@) {
                Some(e) => r matches Err(m) && m@ == e,
                None => r is Ok,
            }
        },
{
    if items.len() == 0 {
        return Err(String::from_str("empty list"));
    }
    let n = items.len();
    let mut i: usize = 0;
    assert(items@.take(0) == Seq::<RouteItem>::empty());
    while i < n
        invariant
            n == items@.len(),
            i <= n,
            bulk_item_error(items@.take(i as int)) is None,
        decreases n - i,
    {
        assert(items@.take(i + 1).drop_last() == items@.take(i as int));
        assert(items@.take(i + 1).last() == items@[i as int]);
        let t = items[i].route_type.as_str();
        if !is_route_type(t) {
            let mut m = String::from_str("invalid type: ");
            m.append(t);
            proof {
                lemma_bulk_error_sticks(items@, i + 1, n as int);
                assert(items@.take(n as int) == items@);
            }
            return Err(m);
        }
        i = i + 1;
    }
    assert(items@.take(n as int) == items@);
    Ok(())
}

proof fn lemma_bulk_error_sticks(items: Seq<RouteItem>, m: int, j: int)
    requires
        0 <= m <= j <= items.len(),
        bulk_item_error(items.take(m)) is Some,
    ensures
        bulk_item_error(items.take(j)) == bulk_item_error(items.take(m)),
    decreases j - m,
{
    if j > m {
        lemma_bulk_error_sticks(items, m, j - 1);
        assert(items.take(j).drop_last() == items.take(j - 1));
    }
}

/// Checks the name of a new group or router: it must not be empty.
pub fn validate_name(name: &str) -> (r: Result<(), String>)
    ensures
        if name@.len() == 0 {
            r matches Err(m) && m@ == "name is required"@
        } else {
            r is Ok
        },
{
    if name.is_empty() {
        Err(String::from_str("name is required"))
    } else {
        Ok(())
    }
}

/// Checks a new server: name, address and API key must all be given,
/// reported in that order.
pub fn validate_server(name: &str, address: &str, xui_api_key: &str) -> (r: Result<(), String>)
    ensures
        if name@.len() == 0 {
            r matches Err(m) && m@ == "name is required"@
        } else if address@.len() == 0 {
            r matches Err(m) && m@ == "address is required"@
        } else if xui_api_key@.len() == 0 {
            r matches Err(m) && m@ == "xui_api_key is required"@
        } else {
            r is Ok
        },
{
    if name.is_empty() {
        return Err(String::from_str("name is required"));
    }
    if address.is_empty() {
        return Err(String::from_str("address is required"));
    }
    if xui_api_key.is_empty() {
        return Err(String::from_str("xui_api_key is required"));
    }
    Ok(())
}

/// A server about to be stored.
#[derive(Debug, Clone, PartialEq, Eq)]
pub struct NewServer {
    pub name: String,
    pub address: String,
    pub xui_api_key: String,
    pub uuid: String,
}

/// Validates a new server and gives it a fresh random UUID.
pub fn new_server(name: &str, address: &str, xui_api_key: &str) -> (r: Result<NewServer, String>)
    ensures
        if name@.len() == 0 {
            r matches Err(m) && m@ == "name is required"@
        } else if address@.len() == 0 {
            r matches Err(m) && m@ == "address is required"@
        } else if xui_api_key@.len() == 0 {
            r matches Err(m) && m@ == "xui_api_key is required"@
        } else {
            r matches Ok(s) && s.name@ == name@ && s.address@ == address@ && s.xui_api_key@
                == xui_api_key@ && is_uuid_v4_text(s.uuid@)
        },
{
    match validate_server(name, address, xui_api_key) {
        Err(m) => Err(m),
        Ok(()) => Ok(
            NewServer {
                name: name.to_owned(),
                address: address.to_owned(),
                xui_api_key: xui_api_key.to_owned(),
                uuid: new_uuid(),
            },
        ),
    }
}

/// A router about to be stored.
#[derive(Debug, Clone, PartialEq, Eq)]
pub struct NewMikrotik {
    pub name: String,
    pub server_id: i64,
    pub inbound_id: i64,
    pub uuid: String,
}

/// Validates a new router and gives it a fresh random UUID.
pub fn new_mikrotik(name: &str, server_id: i64, inbound_id: i64) -> (r: Result<NewMikrotik, String>)
    ensures
        if name@.len() == 0 {
            r matches Err(m) && m@ == "name is required"@
        } else {
            r matches Ok(k) && k.name@ == name@ && k.server_id == server_id && k.inbound_id
                == inbound_id && is_uuid_v4_text(k.uuid@)
        },
{
    match validate_name(name) {
        Err(m) => Err(m),
        Ok(()) => Ok(
            NewMikrotik { name: name.to_owned(), server_id, inbound_id, uuid: new_uuid() },
        ),
    }
}

/// Whether a database error message reports a violated unique constraint.
pub fn is_unique_violation(message: &str) -> (r: bool)
    ensures
        r == contains_text(message@, "UNIQUE"@),
{
    contains_text_of(message, "UNIQUE")
}

/// Checks that a router's key push may be retried: it must still wait for
/// its key, and a public key must be stored.
pub fn retry_precheck(status: &str, public_key: &Option<String>) -> (r: Result<(), String>)
    ensures
        if status@ != "pending_key"@ {
            r matches Err(m) && m@ == "already active"@
        } else if public_key is None {
            r matches Err(m) && m@ == "public key not set"@
        } else {
            r is Ok
        },
{
    if !text_eq(status, "pending_key") {
        return Err(String::from_str("already active"));
    }
    match public_key {
        None => Err(String::from_str("public key not set")),
        Some(_) => Ok(()),
    }
}

/// Checks that a router's init script may be generated: it must be
/// waiting for its key or active.
pub fn script_precheck(status: &str) -> (r: Result<(), String>)
    ensures
        if status@ != "pending_key"@ && status@ != "active"@ {
            r matches Err(m) && m@ == "mikrotik not ready"@
        } else {
            r is Ok
        },
{
    if !text_eq(status, "pending_key") && !text_eq(status, "active") {
        Err(String::from_str("mikrotik not ready"))
    } else {
        Ok(())
    }
}

/// Checks that a router's agent script may be generated: it must be
/// active.
pub fn agent_precheck(status: &str) -> (r: Result<(), String>)
    ensures
        if status@ != "active"@ {
            r matches Err(m) && m@ == "mikrotik not active"@
        } else {
            r is Ok
        },
{
    if !text_eq(status, "active") {
        Err(String::from_str("mikrotik not active"))
    } else {
        Ok(())
    }
}

/// The 3x-ui inbound API URL for `action` ("get" or "update") on inbound
/// `inbound_id` of the server at `address`.
pub open spec fn inbound_api_url_text(address: Seq<char>, action: Seq<char>, inbound_id: i64) -> Seq<
    char,
> {
    trim_end_char(address, '/') + "/panel/api/inbounds/"@ + action + "/"@ + signed_decimal(
        inbound_id as int,
    )
}

/// Builds a 3x-ui inbound API URL.
pub fn inbound_api_url(address: &str, action: &str, inbound_id: i64) -> (r: String)
    ensures
        r@ == inbound_api_url_text(address@, action@, inbound_id),
{
    let mut url = trim_end_char_of(address, '/').to_owned();
    url.append("/panel/api/inbounds/");
    url.append(action);
    url.append("/");
    push_signed_decimal(&mut url, inbound_id);
    url
}

/// The URL the proxy forwards to: the server address without trailing
/// `/`, a `/`, and the path without leading `/`.
pub open spec fn proxy_url_text(address: Seq<char>, path: Seq<char>) -> Seq<char> {
    trim_end_char(address, '/') + "/"@ + trim_start_char(path, '/')
}

/// Builds the proxy's target URL.
pub fn proxy_url(address: &str, path: &str) -> (r: String)
    ensures
        r@ == proxy_url_text(address@, path@),
{
    let mut url = trim_end_char_of(address, '/').to_owned();
    url.append("/");
    url.append(trim_start_char_of(path, '/'));
    url
}

/// The HTTP methods the proxy forwards.
#[derive(Debug, Clone, Copy, PartialEq, Eq)]
pub enum HttpMethod {
    Get,
    Post,
    Put,
    Delete,
    Patch,
}

/// The method a proxy request asks for: GET when none is given, else the
/// upper-cased method, which must be GET, POST, PUT, DELETE or PATCH.
pub open spec fn proxy_method_of(method: Option<Seq<char>>) -> Option<HttpMethod> {
    match method {
        None => Some(HttpMethod::Get),
        Some(m) => {
            let u = uppercase(m);
            if u == "GET"@ {
                Some(HttpMethod::Get)
            } else if u == "POST"@ {
                Some(HttpMethod::Post)
            } else if u == "PUT"@ {
                Some(HttpMethod::Put)
            } else if u == "DELETE"@ {
                Some(HttpMethod::Delete)
            } else if u == "PATCH"@ {
                Some(HttpMethod::Patch)
            } else {
                None
            }
        },
    }
}

/// The method of a proxy request, or "unsupported method".
pub fn proxy_method(method: Option<&str>) -> (r: Result<HttpMethod, String>)
    ensures
        match proxy_method_of(
            match method {
                Some(m) => Some(m@),
                None => None,
            },
        ) {
            Some(k) => r == Ok::<HttpMethod, String>(k),
            None => r matches Err(m) && m@ == "unsupported method"@,
        },
{
    match method {
        None => Ok(HttpMethod::Get),
        Some(m) => {
            let u = to_uppercase(m);
            let u = u.as_str();
            if text_eq(u, "GET") {
                Ok(HttpMethod::Get)
            } else if text_eq(u, "POST") {
                Ok(HttpMethod::Post)
            } else if text_eq(u, "PUT") {
                Ok(HttpMethod::Put)
            } else if text_eq(u, "DELETE") {
                Ok(HttpMethod::Delete)
            } else if text_eq(u, "PATCH") {
                Ok(HttpMethod::Patch)
            } else {
                Err(String::from_str("unsupported method"))
            }
        },
    }
}

/// Naming a method explicitly is case-blind, naming GET is the same as
/// naming none, each of GET, POST, PUT, DELETE and PATCH gives that method,
/// and exactly these five are accepted.
pub proof fn law_proxy_method_names(m: Seq<char>, m2: Seq<char>)
    ensures
        proxy_method_of(None) == Some(HttpMethod::Get),
        uppercase(m) == "GET"@ ==> proxy_method_of(Some(m)) == proxy_method_of(None),
        uppercase(m) == "POST"@ ==> proxy_method_of(Some(m)) == Some(HttpMethod::Post),
        uppercase(m) == "PUT"@ ==> proxy_method_of(Some(m)) == Some(HttpMethod::Put),
        uppercase(m) == "DELETE"@ ==> proxy_method_of(Some(m)) == Some(HttpMethod::Delete),
        uppercase(m) == "PATCH"@ ==> proxy_method_of(Some(m)) == Some(HttpMethod::Patch),
        proxy_method_of(Some(m)) is Some <==> (uppercase(m) == "GET"@ || uppercase(m) == "POST"@
            || uppercase(m) == "PUT"@ || uppercase(m) == "DELETE"@ || uppercase(m) == "PATCH"@),
        uppercase(m2) == uppercase(m) ==> proxy_method_of(Some(m2)) == proxy_method_of(Some(m)),
{
    reveal_strlit("GET");
    reveal_strlit("POST");
    reveal_strlit("PUT");
    reveal_strlit("DELETE");
    reveal_strlit("PATCH");
    assert("GET"@.len() == 3 && "POST"@.len() == 4 && "PUT"@.len() == 3);
    assert("DELETE"@.len() == 6 && "PATCH"@.len() == 5);
    assert("GET"@[0] == 'G' && "PUT"@[0] == 'P');
}

/// `k` is the first inbound whose row id is `id`.
pub open spec fn is_first_inbound(inbounds: Seq<ServerInbound>, id: i64, k: int) -> bool {
    &&& 0 <= k < inbounds.len()
    &&& inbounds[k].id == id
    &&& forall|j: int| 0 <= j < k ==> inbounds[j].id != id
}

/// The 3x-ui inbound number of the first inbound whose row id is `id`.
pub fn find_inbound(inbounds: &[ServerInbound], id: i64) -> (r: Option<i64>)
    ensures
        match r {
            Some(x) => exists|k: int| is_first_inbound(inbounds@, id, k) && inbounds@[k].inbound_id == x,
            None => forall|k: int| 0 <= k < inbounds@.len() ==> #[trigger] inbounds@[k].id != id,
        },
{
    let n = inbounds.len();
    let mut i: usize = 0;
    while i < n
        invariant
            n == inbounds@.len(),
            i <= n,
            forall|j: int| 0 <= j < i ==> #[trigger] inbounds@[j].id != id,
        decreases n - i,
    {
        if inbounds[i].id == id {
            assert(is_first_inbound(inbounds@, id, i as int));
            return Some(inbounds[i].inbound_id);
        }
        i = i + 1;
    }
    None
}

/// A WireGuard peer to add to an inbound.
#[derive(Debug, Clone, PartialEq, Eq)]
pub struct NewPeer {
    pub assigned_ip: String,
    /// The peer's allowed IPs entry: its address with prefix 32.
    pub allowed_ip: String,
    pub public_key: String,
    /// Keep-alive interval, in seconds.
    pub keep_alive: u32,
}

/// The peer to add for a router: the next free pool address (else "IP pool
/// exhausted"), the router's public key (else "public key missing"), keep-
/// alive 25 seconds.
pub fn plan_new_peer(existing_ips: &[String], public_key: &Option<String>) -> (r: Result<NewPeer, String>)
    ensures
        match r {
            Ok(p) => exists|h: nat|
                is_first_free_host(texts(existing_ips@), h) && p.assigned_ip@ == free_host_text(
                    texts(existing_ips@),
                    h,
                ) && p.allowed_ip@ == free_host_text(texts(existing_ips@), h) + "/32"@ && (public_key matches Some(k)
                    && p.public_key@ == k@) && p.keep_alive == 25,
            Err(m) => (m@ == "IP pool exhausted"@ && pool_exhausted(texts(existing_ips@))) || (
            m@ == "public key missing"@ && public_key is None && exists|h: nat|
                is_first_free_host(texts(existing_ips@), h)),
        },
{
    let ip = match next_peer_ip(existing_ips) {
        Some(ip) => ip,
        None => return Err(String::from_str("IP pool exhausted")),
    };
    let key = match public_key {
        Some(k) => k.clone(),
        None => return Err(String::from_str("public key missing")),
    };
    let mut allowed = ip.clone();
    allowed.append("/32");
    Ok(NewPeer { assigned_ip: ip, allowed_ip: allowed, public_key: key, keep_alive: 25 })
}

/// The strings among the allowed-IPs entries of the peers, in order.
pub open spec fn allowed_ip_texts(peers: Seq<Vec<Option<String>>>) -> Seq<Seq<char>>
    decreases peers.len(),
{
    if peers.len() == 0 {
        Seq::empty()
    } else {
        allowed_ip_texts(peers.drop_last()) + string_entries(peers.last()@)
    }
}

/// The strings among some entries, in order.
pub open spec fn string_entries(entries: Seq<Option<String>>) -> Seq<Seq<char>>
    decreases entries.len(),
{
    if entries.len() == 0 {
        Seq::empty()
    } else {
        let rest = string_entries(entries.drop_last());
        match entries.last() {
            Some(s) => rest.push(s@),
            None => rest,
        }
    }
}

/// Collects the allowed-IPs strings of an inbound's peers (each peer's
/// entries, `None` where an entry is not a string).
pub fn allowed_ips_of(peers: &[Vec<Option<String>>]) -> (r: Vec<String>)
    ensures
        r@.map_values(|s: String| s@) == allowed_ip_texts(peers@),
{
    let mut out: Vec<String> = Vec::new();
    let n = peers.len();
    let mut i: usize = 0;
    assert(peers@.take(0) == Seq::<Vec<Option<String>>>::empty());
    while i < n
        invariant
            n == peers@.len(),
            i <= n,
            out@.map_values(|s: String| s@) == allowed_ip_texts(peers@.take(i as int)),
        decreases n - i,
    {
        assert(peers@.take(i + 1).drop_last() == peers@.take(i as int));
        assert(peers@.take(i + 1).last() == peers@[i as int]);
        let entries = &peers[i];
        let m = entries.len();
        let mut j: usize = 0;
        let ghost base = out@.map_values(|s: String| s@);
        assert(entries@.take(0) == Seq::<Option<String>>::empty());
        assert(base + Seq::<Seq<char>>::empty() == base);
        while j < m
            invariant
                m == entries@.len(),
                j <= m,
                out@.map_values(|s: String| s@) == base + string_entries(entries@.take(j as int)),
            decreases m - j,
        {
            assert(entries@.take(j + 1).drop_last() == entries@.take(j as int));
            assert(entries@.take(j + 1).last() == entries@[j as int]);
            match &entries[j] {
                Some(s) => {
                    let ghost before = out@;
                    out.push(s.clone());
                    assert(out@.map_values(|s: String| s@) == before.map_values(|s: String| s@).push(
                        s@,
                    ));
                },
                None => {},
            }
            j = j + 1;
        }
        assert(entries@.take(m as int) == entries@);
        i = i + 1;
    }
    assert(peers@.take(n as int) == peers@);
    out
}

/// Some submitted item has the value `v`.
pub open spec fn is_submitted_value(items: Seq<RouteItem>, v: Seq<char>) -> bool {
    exists|k: int| 0 <= k < items.len() && #[trigger] items[k].value@ == v
}

/// The ids of the routes whose value was submitted, in route order.
pub open spec fn submitted_route_ids(routes: Seq<Route>, items: Seq<RouteItem>) -> Seq<i64>
    decreases routes.len(),
{
    if routes.len() == 0 {
        Seq::empty()
    } else {
        let rest = submitted_route_ids(routes.drop_last(), items);
        if is_submitted_value(items, routes.last().value@) {
            rest.push(routes.last().id)
        } else {
            rest
        }
    }
}

/// The ids of the routes (among `routes`) whose value is one of the
/// submitted items' values, in route order.
pub fn submitted_routes(routes: &[Route], items: &[RouteItem]) -> (r: Vec<i64>)
    ensures
        r@ == submitted_route_ids(routes@, items@),
{
    let mut values = StringHashSet::new();
    let m = items.len();
    let mut k: usize = 0;
    while k < m
        invariant
            m == items@.len(),
            k <= m,
            forall|v: Seq<char>| values@.contains(v) <==> exists|j: int| 0 <= j < k && #[trigger] items@[j].value@ == v,
        decreases m - k,
    {
        values.insert(items[k].value.clone());
        proof {
            assert forall|v: Seq<char>| values@.contains(v) <==> exists|j: int| 0 <= j < k + 1 && #[trigger] items@[j].value@ == v by {
                if v == items@[k as int].value@ {
                    assert(items@[k as int].value@ == v);
                }
            }
        }
        k = k + 1;
    }
    let mut ids: Vec<i64> = Vec::new();
    let n = routes.len();
    let mut i: usize = 0;
    assert(routes@.take(0) == Seq::<Route>::empty());
    while i < n
        invariant
            n == routes@.len(),
            m == items@.len(),
            i <= n,
            forall|v: Seq<char>| values@.contains(v) <==> exists|j: int| 0 <= j < m && #[trigger] items@[j].value@ == v,
            ids@ == submitted_route_ids(routes@.take(i as int), items@),
        decreases n - i,
    {
        assert(routes@.take(i + 1).drop_last() == routes@.take(i as int));
        assert(routes@.take(i + 1).last() == routes@[i as int]);
        if values.contains(routes[i].value.as_str()) {
            ids.push(routes[i].id);
        }
        i = i + 1;
    }
    assert(routes@.take(n as int) == routes@);
    ids
}

/// A group as the admin panel lists it.
#[derive(Debug, Clone, PartialEq, Eq)]
pub struct GroupInfo {
    pub id: i64,
    pub name: String,
}

/// The group a grouping entry stands for: none for the routes of no group;
/// a group without a name gets the empty name.
pub fn group_info(g: &GroupedRoutes) -> (r: Option<GroupInfo>)
    ensures
        match g.group_id {
            Some(id) => r matches Some(info) && info.id == id && info.name@ == match g.group_name {
                Some(n) => n@,
                None => Seq::<char>::empty(),
            },
            None => r is None,
        },
{
    match g.group_id {
        Some(id) => {
            let name = match &g.group_name {
                Some(n) => n.clone(),
                None => String::new(),
            };
            Some(GroupInfo { id, name })
        },
        None => None,
    }
}

/// The geosite entries of the "domain" routes, in order.
pub fn domain_entries(routes: &[Route]) -> (r: Vec<GeoEntry>)
    ensures
        domains_of(r@) == route_values(routes@, "domain"@),
        forall|k: int| 0 <= k < r@.len() ==> r@[k] is Domain,
{
    route_entries(routes, "domain", true)
}

/// The address entries of the "ip" routes, in order.
pub fn address_entries(routes: &[Route]) -> (r: Vec<GeoEntry>)
    ensures
        r@.len() == route_values(routes@, "ip"@).len(),
        forall|k: int|
            0 <= k < r@.len() ==> (#[trigger] r@[k] matches GeoEntry::Ip(v) && v@ == route_values(
                routes@,
                "ip"@,
            )[k]),
{
    route_entries(routes, "ip", false)
}

fn route_entries(routes: &[Route], kind: &str, as_domains: bool) -> (r: Vec<GeoEntry>)
    ensures
        as_domains ==> domains_of(r@) == route_values(routes@, kind@),
        as_domains ==> forall|k: int| 0 <= k < r@.len() ==> r@[k] is Domain,
        r@.len() == route_values(routes@, kind@).len(),
        !as_domains ==> forall|k: int|
            0 <= k < r@.len() ==> (#[trigger] r@[k] matches GeoEntry::Ip(v) && v@ == route_values(
                routes@,
                kind@,
            )[k]),
{
    let mut out: Vec<GeoEntry> = Vec::new();
    let n = routes.len();
    let mut i: usize = 0;
    assert(routes@.take(0) == Seq::<Route>::empty());
    while i < n
        invariant
            n == routes@.len(),
            i <= n,
            out@.len() == route_values(routes@.take(i as int), kind@).len(),
            as_domains ==> domains_of(out@) == route_values(routes@.take(i as int), kind@),
            as_domains ==> forall|k: int| 0 <= k < out@.len() ==> out@[k] is Domain,
            !as_domains ==> forall|k: int|
                0 <= k < out@.len() ==> (#[trigger] out@[k] matches GeoEntry::Ip(v) && v@
                    == route_values(routes@.take(i as int), kind@)[k]),
        decreases n - i,
    {
        let ghost prev = routes@.take(i as int);
        assert(routes@.take(i + 1).drop_last() == prev);
        assert(routes@.take(i + 1).last() == routes@[i as int]);
        let r = &routes[i];
        if text_eq(r.route_type.as_str(), kind) {
            let ghost before = out@;
            let e = if as_domains {
                GeoEntry::Domain(r.value.clone())
            } else {
                GeoEntry::Ip(r.value.clone())
            };
            out.push(e);
            assert(out@.drop_last() == before);
        }
        i = i + 1;
    }
    assert(routes@.take(n as int) == routes@);
    out
}

} // verus!
