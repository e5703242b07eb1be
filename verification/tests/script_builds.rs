use bypass_hub::models::{Mikrotik, Server, ServerInbound};
use bypass_hub::script_build::{
    FetchedInbound, ScriptAction, ScriptBuild, ScriptEvent, ScriptOutcome, ScriptStage,
};

const SECRET: &str = "dwdtCnMYpX08FsFyUbJmRd9ML4frwJkqsXf7pR25LCo=";
const PUBLIC: &str = "hSDwCYkwp1R0i33ctD73Wg2/Og0mOBr066SpjqqbTmo=";
const TEMPLATE: &str =
    "{{ uuid }} {{ endpoint_address }}:{{ endpoint_port }} {{ server_public_key }} {{ assigned_ip }} {{ lists_base_url }}";

fn router(status: &str, assigned_ip: Option<&str>) -> Mikrotik {
    Mikrotik {
        id: 5,
        name: "office".to_string(),
        server_id: 2,
        inbound_id: 9,
        public_key: Some("PK".to_string()),
        assigned_ip: assigned_ip.map(|s| s.to_string()),
        uuid: "u-1".to_string(),
        status: status.to_string(),
        created_at: 0,
    }
}

fn server() -> Server {
    Server {
        id: 2,
        name: "nl".to_string(),
        address: "https://vpn.example.com/".to_string(),
        xui_api_key: "key".to_string(),
        uuid: "s-1".to_string(),
    }
}

fn fetched(secret: Option<&str>, port: Option<u64>, ips: &[&str]) -> FetchedInbound {
    FetchedInbound {
        secret_key: secret.map(|s| s.to_string()),
        port,
        peers: ips.iter().map(|ip| vec![Some(ip.to_string())]).collect(),
    }
}

/// Runs a build of a router with `status` and `assigned_ip` up to the fetch.
fn until_fetch(status: &str, assigned_ip: Option<&str>) -> ScriptBuild {
    let (b, action) = ScriptBuild::start(5, "http://lists.example".to_string());
    assert_eq!(action, ScriptAction::LoadRouter { id: 5 });
    let (b, action) = b.step(ScriptEvent::RouterLoaded(Ok(Some(router(status, assigned_ip)))));
    assert_eq!(action, ScriptAction::LoadServer { id: 2 });
    let (b, action) = b.step(ScriptEvent::ServerLoaded(Ok(Some(server()))));
    assert_eq!(action, ScriptAction::LoadInbounds { server_id: 2 });
    let (b, action) = b.step(ScriptEvent::InboundsLoaded(Ok(vec![ServerInbound {
        id: 9,
        server_id: 2,
        inbound_id: 4,
    }])));
    assert_eq!(
        action,
        ScriptAction::FetchInbound {
            url: "https://vpn.example.com/panel/api/inbounds/get/4".to_string(),
            api_key: "key".to_string(),
        }
    );
    b
}

#[test]
fn script_for_pending_router_takes_next_free_address() {
    let b = until_fetch("pending_key", None);
    let (b, action) = b.step(ScriptEvent::InboundFetched(Ok(fetched(
        Some(SECRET),
        Some(51821),
        &["10.0.0.2/32"],
    ))));
    assert_eq!(action, ScriptAction::ReadTemplate);
    let (b, action) = b.step(ScriptEvent::TemplateRead(Ok(TEMPLATE.to_string())));
    let expected = format!("u-1 vpn.example.com:51821 {} 10.0.0.3 http://lists.example", PUBLIC);
    assert_eq!(action, ScriptAction::Finish(ScriptOutcome::Script(expected)));
    assert_eq!(b.stage, ScriptStage::Done);
}

#[test]
fn script_for_active_router_keeps_its_address_and_default_port() {
    let b = until_fetch("active", Some("10.0.0.7"));
    let (b, _) = b.step(ScriptEvent::InboundFetched(Ok(fetched(Some(SECRET), None, &[]))));
    let (_, action) = b.step(ScriptEvent::TemplateRead(Ok(TEMPLATE.to_string())));
    let expected = format!("u-1 vpn.example.com:51820 {} 10.0.0.7 http://lists.example", PUBLIC);
    assert_eq!(action, ScriptAction::Finish(ScriptOutcome::Script(expected)));
}

#[test]
fn script_refusals() {
    let (b, _) = ScriptBuild::start(5, String::new());
    let (_, action) = b.step(ScriptEvent::RouterLoaded(Ok(None)));
    assert_eq!(action, ScriptAction::Finish(ScriptOutcome::NotFound));

    let (b, _) = ScriptBuild::start(5, String::new());
    let (_, action) = b.step(ScriptEvent::RouterLoaded(Ok(Some(router("disabled", None)))));
    assert_eq!(action, ScriptAction::Finish(ScriptOutcome::NotReady));

    let (b, _) = ScriptBuild::start(5, String::new());
    let (_, action) = b.step(ScriptEvent::RouterLoaded(Err("locked".to_string())));
    assert_eq!(action, ScriptAction::Finish(ScriptOutcome::DbError("locked".to_string())));

    let (b, _) = ScriptBuild::start(5, String::new());
    let (b, _) = b.step(ScriptEvent::RouterLoaded(Ok(Some(router("active", None)))));
    let (b, _) = b.step(ScriptEvent::ServerLoaded(Ok(Some(server()))));
    let (_, action) = b.step(ScriptEvent::InboundsLoaded(Ok(vec![])));
    assert_eq!(action, ScriptAction::Finish(ScriptOutcome::InboundNotFound));
}

#[test]
fn script_failures_after_fetch() {
    let b = until_fetch("pending_key", None);
    let (_, action) = b.step(ScriptEvent::InboundFetched(Err("timeout".to_string())));
    assert_eq!(action, ScriptAction::Finish(ScriptOutcome::GatewayError("timeout".to_string())));

    let b = until_fetch("pending_key", None);
    let (_, action) = b.step(ScriptEvent::InboundFetched(Ok(fetched(None, None, &[]))));
    assert_eq!(action, ScriptAction::Finish(ScriptOutcome::SecretKeyMissing));

    let b = until_fetch("pending_key", None);
    let (_, action) =
        b.step(ScriptEvent::InboundFetched(Ok(fetched(Some("AAAA"), None, &[]))));
    assert_eq!(
        action,
        ScriptAction::Finish(ScriptOutcome::KeyError("secret key must be 32 bytes".to_string()))
    );

    let all: Vec<String> = (2..254).map(|h| format!("10.0.0.{}/32", h)).collect();
    let all: Vec<&str> = all.iter().map(|s| s.as_str()).collect();
    let b = until_fetch("pending_key", None);
    let (_, action) = b.step(ScriptEvent::InboundFetched(Ok(fetched(Some(SECRET), None, &all))));
    assert_eq!(action, ScriptAction::Finish(ScriptOutcome::PoolExhausted));

    let b = until_fetch("pending_key", None);
    let (b, _) = b.step(ScriptEvent::InboundFetched(Ok(fetched(Some(SECRET), None, &[]))));
    let (_, action) = b.step(ScriptEvent::TemplateRead(Ok("{% if %}".to_string())));
    assert_eq!(action, ScriptAction::Finish(ScriptOutcome::RenderFailed));
}
