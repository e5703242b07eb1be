use bypass_hub::models::{Mikrotik, Server, ServerInbound};
use bypass_hub::onboarding::{PeerPush, PushAction, PushEvent, PushStage};
use bypass_hub::requests::NewPeer;

fn router(public_key: Option<&str>) -> Mikrotik {
    Mikrotik {
        id: 5,
        name: "office".to_string(),
        server_id: 2,
        inbound_id: 9,
        public_key: public_key.map(|k| k.to_string()),
        assigned_ip: None,
        uuid: "u-1".to_string(),
        status: "pending_key".to_string(),
        created_at: 0,
    }
}

fn server() -> Server {
    Server {
        id: 2,
        name: "nl".to_string(),
        address: "http://x.example:2053/".to_string(),
        xui_api_key: "key".to_string(),
        uuid: "s-1".to_string(),
    }
}

fn inbounds() -> Vec<ServerInbound> {
    vec![
        ServerInbound { id: 8, server_id: 2, inbound_id: 1 },
        ServerInbound { id: 9, server_id: 2, inbound_id: 3 },
    ]
}

fn peers(ips: &[&str]) -> Vec<Vec<Option<String>>> {
    ips.iter().map(|ip| vec![Some(ip.to_string())]).collect()
}

fn fail(text: &str) -> PushAction {
    PushAction::Finish(Err(text.to_string()))
}

/// Runs a push up to the fetch of the inbound.
fn until_fetch(public_key: Option<&str>) -> PeerPush {
    let (push, action) = PeerPush::start(5);
    assert_eq!(action, PushAction::LoadRouter { id: 5 });
    let (push, action) = push.step(PushEvent::RouterLoaded(Ok(Some(router(public_key)))));
    assert_eq!(action, PushAction::LoadServer { id: 2 });
    let (push, action) = push.step(PushEvent::ServerLoaded(Ok(Some(server()))));
    assert_eq!(action, PushAction::LoadInbounds { server_id: 2 });
    let (push, action) = push.step(PushEvent::InboundsLoaded(Ok(inbounds())));
    assert_eq!(
        action,
        PushAction::FetchInbound {
            url: "http://x.example:2053/panel/api/inbounds/get/3".to_string(),
            api_key: "key".to_string(),
        }
    );
    push
}

#[test]
fn push_assigns_first_free_address() {
    let push = until_fetch(Some("PK"));
    let fetched = peers(&["10.0.0.2/32", "10.0.0.4/32"]);
    let (push, action) = push.step(PushEvent::InboundFetched(Ok(Some(fetched))));
    let peer = NewPeer {
        assigned_ip: "10.0.0.3".to_string(),
        allowed_ip: "10.0.0.3/32".to_string(),
        public_key: "PK".to_string(),
        keep_alive: 25,
    };
    assert_eq!(
        action,
        PushAction::UpdateInbound {
            url: "http://x.example:2053/panel/api/inbounds/update/3".to_string(),
            api_key: "key".to_string(),
            peer: peer.clone(),
        }
    );
    assert!(push.expects(&PushEvent::InboundUpdated(Ok(true))));
    assert!(!push.expects(&PushEvent::KeySaved(Ok(()))));
    let (push, action) = push.step(PushEvent::InboundUpdated(Ok(true)));
    assert_eq!(
        action,
        PushAction::SaveKey {
            id: 5,
            public_key: "PK".to_string(),
            assigned_ip: "10.0.0.3".to_string(),
        }
    );
    let (push, action) = push.step(PushEvent::KeySaved(Ok(())));
    assert_eq!(action, PushAction::Finish(Ok("10.0.0.3".to_string())));
    assert_eq!(push.stage, PushStage::Done);
    assert_eq!(push.id, 5);
}

#[test]
fn push_missing_records() {
    let (push, _) = PeerPush::start(5);
    let (push, action) = push.step(PushEvent::RouterLoaded(Ok(None)));
    assert_eq!(action, fail("not found"));
    assert_eq!(push.stage, PushStage::Done);

    let (push, _) = PeerPush::start(5);
    let (push, _) = push.step(PushEvent::RouterLoaded(Ok(Some(router(Some("PK"))))));
    let (_, action) = push.step(PushEvent::ServerLoaded(Ok(None)));
    assert_eq!(action, fail("server not found"));

    let (push, _) = PeerPush::start(5);
    let (push, _) = push.step(PushEvent::RouterLoaded(Ok(Some(router(Some("PK"))))));
    let (push, _) = push.step(PushEvent::ServerLoaded(Ok(Some(server()))));
    let (_, action) = push.step(PushEvent::InboundsLoaded(Ok(vec![ServerInbound {
        id: 8,
        server_id: 2,
        inbound_id: 1,
    }])));
    assert_eq!(action, fail("inbound not found"));
}

#[test]
fn push_passes_errors_through() {
    let (push, _) = PeerPush::start(5);
    let (push, action) = push.step(PushEvent::RouterLoaded(Err("db down".to_string())));
    assert_eq!(action, fail("db down"));
    assert_eq!(push.stage, PushStage::Done);

    let push = until_fetch(Some("PK"));
    let (_, action) = push.step(PushEvent::InboundFetched(Err("timeout".to_string())));
    assert_eq!(action, fail("timeout"));

    let push = until_fetch(Some("PK"));
    let (_, action) = push.step(PushEvent::InboundFetched(Ok(None)));
    assert_eq!(action, fail("no obj"));
}

#[test]
fn push_refuses_without_key_or_address() {
    let push = until_fetch(None);
    let (_, action) = push.step(PushEvent::InboundFetched(Ok(Some(peers(&["10.0.0.2/32"])))));
    assert_eq!(action, fail("public key missing"));

    let all: Vec<String> = (2..254).map(|h| format!("10.0.0.{}/32", h)).collect();
    let all: Vec<&str> = all.iter().map(|s| s.as_str()).collect();
    let push = until_fetch(Some("PK"));
    let (_, action) = push.step(PushEvent::InboundFetched(Ok(Some(peers(&all)))));
    assert_eq!(action, fail("IP pool exhausted"));
}

#[test]
fn push_update_refused() {
    let push = until_fetch(Some("PK"));
    let (push, _) = push.step(PushEvent::InboundFetched(Ok(Some(peers(&[])))));
    let (push, action) = push.step(PushEvent::InboundUpdated(Ok(false)));
    assert_eq!(action, fail("3x-ui update failed"));
    assert_eq!(push.stage, PushStage::Done);

    let push = until_fetch(Some("PK"));
    let (push, _) = push.step(PushEvent::InboundFetched(Ok(Some(peers(&[])))));
    let (push, _) = push.step(PushEvent::InboundUpdated(Ok(true)));
    let (_, action) = push.step(PushEvent::KeySaved(Err("locked".to_string())));
    assert_eq!(action, fail("locked"));
}
