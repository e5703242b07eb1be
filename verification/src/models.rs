//! Records the backend keeps: routes, servers, their inbounds and MikroTik
//! routers.

use vstd::prelude::*;

verus! {

/// A route of a list: `route_type` is "domain" or "ip".
#[derive(Debug, Clone, PartialEq, Eq)]
pub struct Route {
    pub id: i64,
    pub value: String,
    pub route_type: String,
}

/// A route as plain values.
pub struct RouteView {
    pub id: i64,
    pub value: Seq<char>,
    pub route_type: Seq<char>,
}

impl View for Route {
    type V = RouteView;

    open spec fn view(&self) -> RouteView {
        RouteView { id: self.id, value: self.value@, route_type: self.route_type@ }
    }
}

/// A registered 3x-ui server.
#[derive(Debug, Clone, PartialEq, Eq)]
pub struct Server {
    pub id: i64,
    pub name: String,
    pub address: String,
    pub xui_api_key: String,
    pub uuid: String,
}

/// A WireGuard inbound of a server: `id` is its own row, `inbound_id` the
/// inbound's number in 3x-ui.
#[derive(Debug, Clone, Copy, PartialEq, Eq)]
pub struct ServerInbound {
    pub id: i64,
    pub server_id: i64,
    pub inbound_id: i64,
}

/// A registered MikroTik router.  `status` is "pending_key" until its public
/// key has been pushed to 3x-ui, then "active".
#[derive(Debug, Clone, PartialEq, Eq)]
pub struct Mikrotik {
    pub id: i64,
    pub name: String,
    pub server_id: i64,
    pub inbound_id: i64,
    pub public_key: Option<String>,
    pub assigned_ip: Option<String>,
    pub uuid: String,
    pub status: String,
    pub created_at: i64,
}

} // verus!
