//! Building a router's init script, as a state machine: each step takes
//! what the last lookup or request answered and says what to do next.  The
//! caller performs the lookups, the request to 3x-ui and the reading of the
//! template.

use vstd::prelude::*;

use crate::models::{Mikrotik, Server, ServerInbound};
use crate::requests::{
    allowed_ip_texts, allowed_ips_of, find_inbound, inbound_api_url, inbound_api_url_text,
    is_first_inbound, script_precheck,
};
use crate::script::{
    endpoint_host, endpoint_host_of, generate_init_script, rendered_init_script,
    script_assigned_ip, wireguard_port, wireguard_port_of, ScriptError, ScriptParams,
};
use crate::wireguard::{
    free_host_text, is_first_free_host, pool_exhausted, public_key_from_secret, public_key_text,
};

verus! {

/// What 3x-ui reported of the router's inbound, as plain values.
#[derive(Debug, PartialEq, Eq)]
pub struct FetchedInbound {
    /// The inbound's WireGuard private key, if the answer held one.
    pub secret_key: Option<String>,
    /// The inbound's listen port, if the answer held a number.
    pub port: Option<u64>,
    /// The allowed-IPs entries of each of its peers.
    pub peers: Vec<Vec<Option<String>>>,
}

/// Where a build stands, with what it has learned so far.
#[derive(Debug, PartialEq, Eq)]
pub enum ScriptStage {
    AwaitRouter,
    AwaitServer { router: Mikrotik },
    AwaitInbounds { router: Mikrotik, server: Server },
    AwaitInbound { router: Mikrotik, server: Server },
    /// Waiting for the template, with the values to render it with.
    AwaitTemplate { params: ScriptParams },
    Done,
}

/// A build of the init script; `lists_base_url` is where the router pulls
/// its route lists from.
#[derive(Debug, PartialEq, Eq)]
pub struct ScriptBuild {
    pub lists_base_url: String,
    pub stage: ScriptStage,
}

/// What a lookup or request answered.  An `Err` holds the error's text.
#[derive(Debug, PartialEq, Eq)]
pub enum ScriptEvent {
    RouterLoaded(Result<Option<Mikrotik>, String>),
    ServerLoaded(Result<Option<Server>, String>),
    InboundsLoaded(Result<Vec<ServerInbound>, String>),
    InboundFetched(Result<FetchedInbound, String>),
    TemplateRead(Result<String, String>),
}

/// How a build ended.
#[derive(Debug, PartialEq, Eq)]
pub enum ScriptOutcome {
    /// The rendered script.
    Script(String),
    /// The router or its server is not stored.
    NotFound,
    /// The router neither waits for its key nor is active.
    NotReady,
    /// The router's inbound is not among its server's inbounds.
    InboundNotFound,
    /// A database lookup failed.
    DbError(String),
    /// 3x-ui could not be reached or its answer was not JSON.
    GatewayError(String),
    /// 3x-ui's answer held no private key.
    SecretKeyMissing,
    /// The private key gave no public key.
    KeyError(String),
    /// The router has no address and none is free.
    PoolExhausted,
    /// The template could not be read.
    TemplateUnavailable(String),
    /// The template engine failed.
    RenderFailed,
}

/// What to do next.
#[derive(Debug, PartialEq, Eq)]
pub enum ScriptAction {
    LoadRouter { id: i64 },
    LoadServer { id: i64 },
    LoadInbounds { server_id: i64 },
    /// Get the inbound from 3x-ui at `url`, with bearer token `api_key`.
    FetchInbound { url: String, api_key: String },
    ReadTemplate,
    Finish(ScriptOutcome),
}

/// The event that a build waits for in each stage.
pub open spec fn script_event_fits(stage: ScriptStage, event: ScriptEvent) -> bool {
    match stage {
        ScriptStage::AwaitRouter => event is RouterLoaded,
        ScriptStage::AwaitServer { .. } => event is ServerLoaded,
        ScriptStage::AwaitInbounds { .. } => event is InboundsLoaded,
        ScriptStage::AwaitInbound { .. } => event is InboundFetched,
        ScriptStage::AwaitTemplate { .. } => event is TemplateRead,
        ScriptStage::Done => false,
    }
}

/// The address the script gives the router: its stored one, else the next
/// free address given the inbound's peers (`existing`).
pub open spec fn script_address(stored: Option<String>, existing: Seq<Seq<char>>, ip: Seq<char>) -> bool {
    match stored {
        Some(s) => ip == s@,
        None => exists|h: nat| is_first_free_host(existing, h) && ip == free_host_text(existing, h),
    }
}

/// The values the script of `router` on `server` is rendered with, given
/// the inbound's port, the server's public key and the router's address.
pub open spec fn script_params_for(
    p: ScriptParams,
    router: Mikrotik,
    server: Server,
    port: Option<u64>,
    public_key: Seq<char>,
    lists_base_url: Seq<char>,
    existing: Seq<Seq<char>>,
) -> bool {
    &&& p.endpoint_address@ == endpoint_host_of(server.address@)
    &&& p.endpoint_port == wireguard_port_of(port)
    &&& p.server_public_key@ == public_key
    &&& script_address(router.assigned_ip, existing, p.assigned_ip@)
    &&& p.mikrotik_uuid@ == router.uuid@
    &&& p.lists_base_url@ == lists_base_url
}

impl ScriptBuild {
    /// A build of router `id`'s script begins with loading the router.
    pub fn start(id: i64, lists_base_url: String) -> (r: (ScriptBuild, ScriptAction))
        ensures
            r.0.lists_base_url == lists_base_url,
            r.0.stage is AwaitRouter,
            r.1 == (ScriptAction::LoadRouter { id }),
    {
        (
            ScriptBuild { lists_base_url, stage: ScriptStage::AwaitRouter },
            ScriptAction::LoadRouter { id },
        )
    }

    /// Whether the build waits for `event` now.
    pub fn expects(&self, event: &ScriptEvent) -> (r: bool)
        ensures
            r == script_event_fits(self.stage, *event),
    {
        match (&self.stage, event) {
            (ScriptStage::AwaitRouter, ScriptEvent::RouterLoaded(_)) => true,
            (ScriptStage::AwaitServer { .. }, ScriptEvent::ServerLoaded(_)) => true,
            (ScriptStage::AwaitInbounds { .. }, ScriptEvent::InboundsLoaded(_)) => true,
            (ScriptStage::AwaitInbound { .. }, ScriptEvent::InboundFetched(_)) => true,
            (ScriptStage::AwaitTemplate { .. }, ScriptEvent::TemplateRead(_)) => true,
            _ => false,
        }
    }

    /// Takes what the awaited lookup or request answered and gives the next
    /// stage and action.
    pub fn step(self, event: ScriptEvent) -> (r: (ScriptBuild, ScriptAction))
        requires
            script_event_fits(self.stage, event),
        ensures
            r.0.lists_base_url == self.lists_base_url,
            r.0.stage is Done <==> r.1 is Finish,
            self.stage is AwaitRouter ==> match event {
                ScriptEvent::RouterLoaded(Err(e)) => r.1 == ScriptAction::Finish(
                    ScriptOutcome::DbError(e),
                ),
                ScriptEvent::RouterLoaded(Ok(None)) => r.1 == ScriptAction::Finish(
                    ScriptOutcome::NotFound,
                ),
                ScriptEvent::RouterLoaded(Ok(Some(m))) => if m.status@ != "pending_key"@
                    && m.status@ != "active"@ {
                    r.1 == ScriptAction::Finish(ScriptOutcome::NotReady)
                } else {
                    r.0.stage == (ScriptStage::AwaitServer { router: m }) && r.1 == (
                    ScriptAction::LoadServer { id: m.server_id })
                },
                _ => false,
            },
            self.stage matches ScriptStage::AwaitServer { router } ==> match event {
                ScriptEvent::ServerLoaded(Err(e)) => r.1 == ScriptAction::Finish(
                    ScriptOutcome::DbError(e),
                ),
                ScriptEvent::ServerLoaded(Ok(None)) => r.1 == ScriptAction::Finish(
                    ScriptOutcome::NotFound,
                ),
                ScriptEvent::ServerLoaded(Ok(Some(sv))) => r.0.stage == (
                ScriptStage::AwaitInbounds { router, server: sv }) && r.1 == (
                ScriptAction::LoadInbounds { server_id: sv.id }),
                _ => false,
            },
            self.stage matches ScriptStage::AwaitInbounds { router, server } ==> match event {
                ScriptEvent::InboundsLoaded(Err(e)) => r.1 == ScriptAction::Finish(
                    ScriptOutcome::DbError(e),
                ),
                ScriptEvent::InboundsLoaded(Ok(list)) => if forall|k: int|
                    0 <= k < list@.len() ==> #[trigger] list@[k].id != router.inbound_id {
                    r.1 == ScriptAction::Finish(ScriptOutcome::InboundNotFound)
                } else {
                    exists|k: int|
                        {
                            &&& is_first_inbound(list@, router.inbound_id, k)
                            &&& r.0.stage == (ScriptStage::AwaitInbound { router, server })
                            &&& (r.1 matches ScriptAction::FetchInbound { url, api_key } && url@
                                == inbound_api_url_text(
                                server.address@,
                                "get"@,
                                list@[k].inbound_id,
                            ) && api_key == server.xui_api_key)
                        }
                },
                _ => false,
            },
            self.stage matches ScriptStage::AwaitInbound { router, server } ==> match event {
                ScriptEvent::InboundFetched(Err(e)) => r.1 == ScriptAction::Finish(
                    ScriptOutcome::GatewayError(e),
                ),
                ScriptEvent::InboundFetched(Ok(f)) => match f.secret_key {
                    None => r.1 == ScriptAction::Finish(ScriptOutcome::SecretKeyMissing),
                    Some(k) => match public_key_text(k@) {
                        Err(m) => r.1 matches ScriptAction::Finish(ScriptOutcome::KeyError(e))
                            && e@ == m,
                        Ok(pk) => if router.assigned_ip is None && pool_exhausted(
                            allowed_ip_texts(f.peers@),
                        ) {
                            r.1 == ScriptAction::Finish(ScriptOutcome::PoolExhausted)
                        } else {
                            r.1 is ReadTemplate && (r.0.stage matches ScriptStage::AwaitTemplate {
                                params,
                            } && script_params_for(
                                params,
                                router,
                                server,
                                f.port,
                                pk,
                                self.lists_base_url@,
                                allowed_ip_texts(f.peers@),
                            ))
                        },
                    },
                },
                _ => false,
            },
            self.stage matches ScriptStage::AwaitTemplate { params } ==> match event {
                ScriptEvent::TemplateRead(Err(e)) => r.1 == ScriptAction::Finish(
                    ScriptOutcome::TemplateUnavailable(e),
                ),
                ScriptEvent::TemplateRead(Ok(t)) => match rendered_init_script(
                    t@,
                    params.mikrotik_uuid@,
                    params.endpoint_address@,
                    params.endpoint_port,
                    params.server_public_key@,
                    params.assigned_ip@,
                    params.lists_base_url@,
                ) {
                    Some(text) => r.1 matches ScriptAction::Finish(ScriptOutcome::Script(sc))
                        && sc@ == text,
                    None => r.1 == ScriptAction::Finish(ScriptOutcome::RenderFailed),
                },
                _ => false,
            },
    {
        let base = self.lists_base_url;
        match self.stage {
            ScriptStage::AwaitRouter => match event {
                ScriptEvent::RouterLoaded(Err(e)) => Self::finish(base, ScriptOutcome::DbError(e)),
                ScriptEvent::RouterLoaded(Ok(None)) => Self::finish(base, ScriptOutcome::NotFound),
                ScriptEvent::RouterLoaded(Ok(Some(m))) => {
                    if script_precheck(&m.status).is_err() {
                        return Self::finish(base, ScriptOutcome::NotReady);
                    }
                    let server_id = m.server_id;
                    (
                        ScriptBuild { lists_base_url: base, stage: ScriptStage::AwaitServer { router: m } },
                        ScriptAction::LoadServer { id: server_id },
                    )
                },
                _ => vstd::pervasive::unreached(),
            },
            ScriptStage::AwaitServer { router } => match event {
                ScriptEvent::ServerLoaded(Err(e)) => Self::finish(base, ScriptOutcome::DbError(e)),
                ScriptEvent::ServerLoaded(Ok(None)) => Self::finish(base, ScriptOutcome::NotFound),
                ScriptEvent::ServerLoaded(Ok(Some(sv))) => {
                    let server_id = sv.id;
                    (
                        ScriptBuild {
                            lists_base_url: base,
                            stage: ScriptStage::AwaitInbounds { router, server: sv },
                        },
                        ScriptAction::LoadInbounds { server_id },
                    )
                },
                _ => vstd::pervasive::unreached(),
            },
            ScriptStage::AwaitInbounds { router, server } => match event {
                ScriptEvent::InboundsLoaded(Err(e)) => Self::finish(base, ScriptOutcome::DbError(e)),
                ScriptEvent::InboundsLoaded(Ok(list)) => {
                    match find_inbound(list.as_slice(), router.inbound_id) {
                        None => Self::finish(base, ScriptOutcome::InboundNotFound),
                        Some(xui_inbound_id) => {
                            let url = inbound_api_url(&server.address, "get", xui_inbound_id);
                            let api_key = server.xui_api_key.clone();
                            (
                                ScriptBuild {
                                    lists_base_url: base,
                                    stage: ScriptStage::AwaitInbound { router, server },
                                },
                                ScriptAction::FetchInbound { url, api_key },
                            )
                        },
                    }
                },
                _ => vstd::pervasive::unreached(),
            },
            ScriptStage::AwaitInbound { router, server } => match event {
                ScriptEvent::InboundFetched(Err(e)) => Self::finish(
                    base,
                    ScriptOutcome::GatewayError(e),
                ),
                ScriptEvent::InboundFetched(Ok(f)) => {
                    let secret = match &f.secret_key {
                        Some(k) => k,
                        None => return Self::finish(base, ScriptOutcome::SecretKeyMissing),
                    };
                    let server_public_key = match public_key_from_secret(secret.as_str()) {
                        Ok(k) => k,
                        Err(e) => return Self::finish(base, ScriptOutcome::KeyError(e)),
                    };
                    let endpoint_port = wireguard_port(f.port);
                    let endpoint_address = endpoint_host(&server.address);
                    let existing = allowed_ips_of(f.peers.as_slice());
                    let assigned_ip = match script_assigned_ip(
                        &router.assigned_ip,
                        existing.as_slice(),
                    ) {
                        Some(ip) => ip,
                        None => return Self::finish(base, ScriptOutcome::PoolExhausted),
                    };
                    let params = ScriptParams {
                        endpoint_address,
                        endpoint_port,
                        server_public_key,
                        assigned_ip,
                        mikrotik_uuid: router.uuid.clone(),
                        lists_base_url: base.clone(),
                    };
                    (
                        ScriptBuild { lists_base_url: base, stage: ScriptStage::AwaitTemplate { params } },
                        ScriptAction::ReadTemplate,
                    )
                },
                _ => vstd::pervasive::unreached(),
            },
            ScriptStage::AwaitTemplate { params } => match event {
                ScriptEvent::TemplateRead(Err(e)) => Self::finish(
                    base,
                    ScriptOutcome::TemplateUnavailable(e),
                ),
                ScriptEvent::TemplateRead(Ok(t)) => match generate_init_script(&t, &params) {
                    Ok(script) => Self::finish(base, ScriptOutcome::Script(script)),
                    Err(ScriptError::Render) => Self::finish(base, ScriptOutcome::RenderFailed),
                },
                _ => vstd::pervasive::unreached(),
            },
            ScriptStage::Done => vstd::pervasive::unreached(),
        }
    }

    /// Ends the build with `outcome`.
    fn finish(lists_base_url: String, outcome: ScriptOutcome) -> (r: (ScriptBuild, ScriptAction))
        ensures
            r.0.lists_base_url == lists_base_url,
            r.0.stage is Done,
            r.1 == ScriptAction::Finish(outcome),
    {
        (ScriptBuild { lists_base_url, stage: ScriptStage::Done }, ScriptAction::Finish(outcome))
    }
}

} // verus!
