//! Pushing a router's WireGuard peer to its 3x-ui inbound, as a state
//! machine: each step takes what the last lookup or request answered and
//! says what to do next.  The caller performs the lookups and requests.

use vstd::prelude::*;

use crate::models::{Mikrotik, Server, ServerInbound};
use crate::requests::{
    allowed_ip_texts, allowed_ips_of, find_inbound, inbound_api_url, inbound_api_url_text,
    is_first_inbound, plan_new_peer, NewPeer,
};
use crate::wireguard::{
    address_in_use, free_host_text, is_first_free_host, lemma_dotted_quad_address, peer_address,
    pool_address, pool_base, pool_exhausted,
};

verus! {

/// Where a push stands, with what it has learned so far.
#[derive(Debug, PartialEq, Eq)]
pub enum PushStage {
    /// Waiting for the router's record.
    AwaitRouter,
    /// Waiting for the record of the router's server.
    AwaitServer { router: Mikrotik },
    /// Waiting for the server's inbounds.
    AwaitInbounds { router: Mikrotik, server: Server },
    /// Waiting for the inbound as 3x-ui reports it (its peers' allowed IPs).
    AwaitInbound { router: Mikrotik, server: Server, xui_inbound_id: i64 },
    /// Waiting for 3x-ui to accept the inbound with the new peer.
    AwaitUpdate { peer: NewPeer },
    /// Waiting for the router's key and address to be stored.
    AwaitSave { peer: NewPeer },
    /// Finished, with success or an error.
    Done,
}

/// A push of the peer of router `id`.
#[derive(Debug, PartialEq, Eq)]
pub struct PeerPush {
    pub id: i64,
    pub stage: PushStage,
}

/// What a lookup or request answered.  An `Err` holds the error's text.
#[derive(Debug, PartialEq, Eq)]
pub enum PushEvent {
    /// The router's record, if there is one.
    RouterLoaded(Result<Option<Mikrotik>, String>),
    /// The server's record, if there is one.
    ServerLoaded(Result<Option<Server>, String>),
    /// The server's inbounds.
    InboundsLoaded(Result<Vec<ServerInbound>, String>),
    /// The allowed-IPs entries of each peer of the inbound, `None` where the
    /// answer held no inbound object.
    InboundFetched(Result<Option<Vec<Vec<Option<String>>>>, String>),
    /// Whether 3x-ui answered the update with a success status.
    InboundUpdated(Result<bool, String>),
    /// Whether the key and address were stored.
    KeySaved(Result<(), String>),
}

/// What to do next.
#[derive(Debug, PartialEq, Eq)]
pub enum PushAction {
    LoadRouter { id: i64 },
    LoadServer { id: i64 },
    LoadInbounds { server_id: i64 },
    /// Get the inbound from 3x-ui at `url`, with bearer token `api_key`.
    FetchInbound { url: String, api_key: String },
    /// Send the fetched inbound with `peer` added to its peers to `url`.
    UpdateInbound { url: String, api_key: String, peer: NewPeer },
    /// Store the router's public key and assigned address, and mark it
    /// active.
    SaveKey { id: i64, public_key: String, assigned_ip: String },
    /// The push is over: the assigned address, or the error's text.
    Finish(Result<String, String>),
}

/// The event that a push waits for in each stage.
pub open spec fn event_fits(stage: PushStage, event: PushEvent) -> bool {
    match stage {
        PushStage::AwaitRouter => event is RouterLoaded,
        PushStage::AwaitServer { .. } => event is ServerLoaded,
        PushStage::AwaitInbounds { .. } => event is InboundsLoaded,
        PushStage::AwaitInbound { .. } => event is InboundFetched,
        PushStage::AwaitUpdate { .. } => event is InboundUpdated,
        PushStage::AwaitSave { .. } => event is KeySaved,
        PushStage::Done => false,
    }
}

/// How far along a stage is: each step that does not end the push moves on
/// by one.
pub open spec fn stage_rank(stage: PushStage) -> nat {
    match stage {
        PushStage::AwaitRouter => 0,
        PushStage::AwaitServer { .. } => 1,
        PushStage::AwaitInbounds { .. } => 2,
        PushStage::AwaitInbound { .. } => 3,
        PushStage::AwaitUpdate { .. } => 4,
        PushStage::AwaitSave { .. } => 5,
        PushStage::Done => 6,
    }
}

/// `action` ends the push with the error `text`.
pub open spec fn fails_with(action: PushAction, text: Seq<char>) -> bool {
    action matches PushAction::Finish(Err(m)) && m@ == text
}

impl PeerPush {
    /// A push of router `id`'s peer begins with loading the router.
    pub fn start(id: i64) -> (r: (PeerPush, PushAction))
        ensures
            r.0.id == id,
            r.0.stage is AwaitRouter,
            r.1 == (PushAction::LoadRouter { id }),
    {
        (PeerPush { id, stage: PushStage::AwaitRouter }, PushAction::LoadRouter { id })
    }

    /// Whether the push waits for `event` now.
    pub fn expects(&self, event: &PushEvent) -> (r: bool)
        ensures
            r == event_fits(self.stage, *event),
    {
        match (&self.stage, event) {
            (PushStage::AwaitRouter, PushEvent::RouterLoaded(_)) => true,
            (PushStage::AwaitServer { .. }, PushEvent::ServerLoaded(_)) => true,
            (PushStage::AwaitInbounds { .. }, PushEvent::InboundsLoaded(_)) => true,
            (PushStage::AwaitInbound { .. }, PushEvent::InboundFetched(_)) => true,
            (PushStage::AwaitUpdate { .. }, PushEvent::InboundUpdated(_)) => true,
            (PushStage::AwaitSave { .. }, PushEvent::KeySaved(_)) => true,
            _ => false,
        }
    }

    /// Takes what the awaited lookup or request answered and gives the next
    /// stage and action.  Any error ends the push with the error's text.
    pub fn step(self, event: PushEvent) -> (r: (PeerPush, PushAction))
        requires
            event_fits(self.stage, event),
        ensures
            r.0.id == self.id,
            r.0.stage is Done <==> r.1 is Finish,
            self.stage is AwaitRouter ==> match event {
                PushEvent::RouterLoaded(Err(e)) => r.1 == PushAction::Finish(Err(e)),
                PushEvent::RouterLoaded(Ok(None)) => fails_with(r.1, "not found"@),
                PushEvent::RouterLoaded(Ok(Some(m))) => r.0.stage == (PushStage::AwaitServer {
                    router: m,
                }) && r.1 == (PushAction::LoadServer { id: m.server_id }),
                _ => false,
            },
            self.stage matches PushStage::AwaitServer { router } ==> match event {
                PushEvent::ServerLoaded(Err(e)) => r.1 == PushAction::Finish(Err(e)),
                PushEvent::ServerLoaded(Ok(None)) => fails_with(r.1, "server not found"@),
                PushEvent::ServerLoaded(Ok(Some(s))) => r.0.stage == (PushStage::AwaitInbounds {
                    router,
                    server: s,
                }) && r.1 == (PushAction::LoadInbounds { server_id: s.id }),
                _ => false,
            },
            self.stage matches PushStage::AwaitInbounds { router, server } ==> match event {
                PushEvent::InboundsLoaded(Err(e)) => r.1 == PushAction::Finish(Err(e)),
                PushEvent::InboundsLoaded(Ok(list)) => if forall|k: int|
                    0 <= k < list@.len() ==> #[trigger] list@[k].id != router.inbound_id {
                    fails_with(r.1, "inbound not found"@)
                } else {
                    exists|k: int|
                        {
                            &&& is_first_inbound(list@, router.inbound_id, k)
                            &&& r.0.stage == (PushStage::AwaitInbound {
                                router,
                                server,
                                xui_inbound_id: list@[k].inbound_id,
                            })
                            &&& (r.1 matches PushAction::FetchInbound { url, api_key } && url@
                                == inbound_api_url_text(
                                server.address@,
                                "get"@,
                                list@[k].inbound_id,
                            ) && api_key == server.xui_api_key)
                        }
                },
                _ => false,
            },
            self.stage matches PushStage::AwaitInbound { router, server, xui_inbound_id }
                ==> match event {
                PushEvent::InboundFetched(Err(e)) => r.1 == PushAction::Finish(Err(e)),
                PushEvent::InboundFetched(Ok(None)) => fails_with(r.1, "no obj"@),
                PushEvent::InboundFetched(Ok(Some(peers))) => if pool_exhausted(allowed_ip_texts(peers@)) {
                    fails_with(r.1, "IP pool exhausted"@)
                } else if router.public_key is None {
                    fails_with(r.1, "public key missing"@)
                } else {
                    exists|h: nat|
                        {
                            &&& is_first_free_host(allowed_ip_texts(peers@), h)
                            &&& (r.1 matches PushAction::UpdateInbound { url, api_key, peer }
                                && r.0.stage == (PushStage::AwaitUpdate { peer }) && url@
                                == inbound_api_url_text(server.address@, "update"@, xui_inbound_id)
                                && api_key == server.xui_api_key && peer.assigned_ip@ == free_host_text(
                                    allowed_ip_texts(peers@),
                                    h,
                                )
                                && peer.allowed_ip@ == free_host_text(allowed_ip_texts(peers@), h) + "/32"@ && peer.public_key@
                                == router.public_key->0@ && peer.keep_alive == 25)
                        }
                },
                _ => false,
            },
            self.stage matches PushStage::AwaitUpdate { peer } ==> match event {
                PushEvent::InboundUpdated(Err(e)) => r.1 == PushAction::Finish(Err(e)),
                PushEvent::InboundUpdated(Ok(false)) => fails_with(r.1, "3x-ui update failed"@),
                PushEvent::InboundUpdated(Ok(true)) => r.0.stage == (PushStage::AwaitSave { peer })
                    && r.1 == (PushAction::SaveKey {
                    id: self.id,
                    public_key: peer.public_key,
                    assigned_ip: peer.assigned_ip,
                }),
                _ => false,
            },
            self.stage matches PushStage::AwaitSave { peer } ==> match event {
                PushEvent::KeySaved(Err(e)) => r.1 == PushAction::Finish(Err(e)),
                PushEvent::KeySaved(Ok(())) => r.1 == PushAction::Finish(Ok(peer.assigned_ip)),
                _ => false,
            },
            r.1 is SaveKey ==> self.stage is AwaitUpdate && event == PushEvent::InboundUpdated(
                Ok(true),
            ),
            r.1 is SaveKey <==> r.0.stage is AwaitSave,
            r.1 is UpdateInbound <==> r.0.stage is AwaitUpdate,
            !(r.0.stage is Done) ==> stage_rank(r.0.stage) == stage_rank(self.stage) + 1,
            r.1 matches PushAction::Finish(Ok(ip)) ==> self.stage matches PushStage::AwaitSave {
                peer,
            } && ip == peer.assigned_ip && (event matches PushEvent::KeySaved(Ok(_))),
    {
        let id = self.id;
        match self.stage {
            PushStage::AwaitRouter => match event {
                PushEvent::RouterLoaded(Err(e)) => Self::finish(id, Err(e)),
                PushEvent::RouterLoaded(Ok(None)) => Self::finish(
                    id,
                    Err(String::from_str("not found")),
                ),
                PushEvent::RouterLoaded(Ok(Some(m))) => {
                    let server_id = m.server_id;
                    (
                        PeerPush { id, stage: PushStage::AwaitServer { router: m } },
                        PushAction::LoadServer { id: server_id },
                    )
                },
                _ => vstd::pervasive::unreached(),
            },
            PushStage::AwaitServer { router } => match event {
                PushEvent::ServerLoaded(Err(e)) => Self::finish(id, Err(e)),
                PushEvent::ServerLoaded(Ok(None)) => Self::finish(
                    id,
                    Err(String::from_str("server not found")),
                ),
                PushEvent::ServerLoaded(Ok(Some(s))) => {
                    let server_id = s.id;
                    (
                        PeerPush { id, stage: PushStage::AwaitInbounds { router, server: s } },
                        PushAction::LoadInbounds { server_id },
                    )
                },
                _ => vstd::pervasive::unreached(),
            },
            PushStage::AwaitInbounds { router, server } => match event {
                PushEvent::InboundsLoaded(Err(e)) => Self::finish(id, Err(e)),
                PushEvent::InboundsLoaded(Ok(list)) => {
                    match find_inbound(list.as_slice(), router.inbound_id) {
                        None => Self::finish(id, Err(String::from_str("inbound not found"))),
                        Some(xui_inbound_id) => {
                            let url = inbound_api_url(&server.address, "get", xui_inbound_id);
                            let api_key = server.xui_api_key.clone();
                            (
                                PeerPush {
                                    id,
                                    stage: PushStage::AwaitInbound {
                                        router,
                                        server,
                                        xui_inbound_id,
                                    },
                                },
                                PushAction::FetchInbound { url, api_key },
                            )
                        },
                    }
                },
                _ => vstd::pervasive::unreached(),
            },
            PushStage::AwaitInbound { router, server, xui_inbound_id } => match event {
                PushEvent::InboundFetched(Err(e)) => Self::finish(id, Err(e)),
                PushEvent::InboundFetched(Ok(None)) => Self::finish(
                    id,
                    Err(String::from_str("no obj")),
                ),
                PushEvent::InboundFetched(Ok(Some(peers))) => {
                    let existing = allowed_ips_of(peers.as_slice());
                    match plan_new_peer(existing.as_slice(), &router.public_key) {
                        Err(m) => Self::finish(id, Err(m)),
                        Ok(peer) => {
                            let url = inbound_api_url(&server.address, "update", xui_inbound_id);
                            let update_peer = NewPeer {
                                assigned_ip: peer.assigned_ip.clone(),
                                allowed_ip: peer.allowed_ip.clone(),
                                public_key: peer.public_key.clone(),
                                keep_alive: peer.keep_alive,
                            };
                            (
                                PeerPush { id, stage: PushStage::AwaitUpdate { peer } },
                                PushAction::UpdateInbound {
                                    url,
                                    api_key: server.xui_api_key,
                                    peer: update_peer,
                                },
                            )
                        },
                    }
                },
                _ => vstd::pervasive::unreached(),
            },
            PushStage::AwaitUpdate { peer } => match event {
                PushEvent::InboundUpdated(Err(e)) => Self::finish(id, Err(e)),
                PushEvent::InboundUpdated(Ok(false)) => Self::finish(
                    id,
                    Err(String::from_str("3x-ui update failed")),
                ),
                PushEvent::InboundUpdated(Ok(true)) => {
                    let public_key = peer.public_key.clone();
                    let assigned_ip = peer.assigned_ip.clone();
                    (
                        PeerPush { id, stage: PushStage::AwaitSave { peer } },
                        PushAction::SaveKey { id, public_key, assigned_ip },
                    )
                },
                _ => vstd::pervasive::unreached(),
            },
            PushStage::AwaitSave { peer } => match event {
                PushEvent::KeySaved(Err(e)) => Self::finish(id, Err(e)),
                PushEvent::KeySaved(Ok(())) => Self::finish(id, Ok(peer.assigned_ip)),
                _ => vstd::pervasive::unreached(),
            },
            PushStage::Done => vstd::pervasive::unreached(),
        }
    }

    /// Ends the push of router `id` with `outcome`.
    fn finish(id: i64, outcome: Result<String, String>) -> (r: (PeerPush, PushAction))
        ensures
            r.0.id == id,
            r.0.stage is Done,
            r.1 == PushAction::Finish(outcome),
    {
        (PeerPush { id, stage: PushStage::Done }, PushAction::Finish(outcome))
    }
}

/// A finished push takes no further answer, so it asks for nothing more:
/// after an error no update is sent and no key is stored.
pub proof fn law_finished_push_takes_nothing(event: PushEvent)
    ensures
        !event_fits(PushStage::Done, event),
{
}

/// The address a push assigns is new among the inbound's peers: the entry
/// "address/32" it adds holds that address, and no existing allowed-IPs
/// entry holds it.
pub proof fn law_pushed_address_is_new(peers: Seq<Vec<Option<String>>>, h: nat)
    requires
        is_first_free_host(allowed_ip_texts(peers), h),
    ensures
        peer_address(free_host_text(allowed_ip_texts(peers), h) + "/32"@) == Some(
            pool_address(pool_base(allowed_ip_texts(peers)), h),
        ),
        forall|j: int|
            0 <= j < allowed_ip_texts(peers).len() ==> peer_address(
                #[trigger] allowed_ip_texts(peers)[j],
            ) != Some(pool_address(pool_base(allowed_ip_texts(peers)), h)),
{
    let existing = allowed_ip_texts(peers);
    let a = pool_address(pool_base(existing), h);
    lemma_dotted_quad_address(a);
    assert forall|j: int| 0 <= j < existing.len() implies peer_address(#[trigger] existing[j])
        != Some(a) by {
        if peer_address(existing[j]) == Some(a) {
            assert(address_in_use(existing, a));
        }
    }
}

} // verus!
