use bypass_hub::geo::GeoEntry;
use bypass_hub::grouping::GroupedRoutes;
use bypass_hub::models::{Route, ServerInbound};
use bypass_hub::requests::{
    address_entries, agent_precheck, allowed_ips_of, domain_entries, find_inbound, group_info,
    inbound_api_url, is_route_type, is_unique_violation, new_mikrotik, new_server, plan_new_peer,
    proxy_method, proxy_url, retry_precheck, script_precheck, submitted_routes,
    validate_bulk_routes, validate_name, validate_route, validate_server, HttpMethod, RouteItem,
};

fn route(id: i64, value: &str, t: &str) -> Route {
    Route { id, value: value.to_string(), route_type: t.to_string() }
}

fn item(value: &str, t: &str) -> RouteItem {
    RouteItem { value: value.to_string(), route_type: t.to_string() }
}

fn err(s: &str) -> Result<(), String> {
    Err(s.to_string())
}

#[test]
fn route_validation() {
    assert_eq!(validate_route("", "ip"), err("value is required"));
    assert_eq!(validate_route("", "bogus"), err("value is required"));
    assert_eq!(validate_route("a.b", "url"), err("type must be 'domain' or 'ip'"));
    assert_eq!(validate_route("a.b", "Domain"), err("type must be 'domain' or 'ip'"));
    assert_eq!(validate_route("a.b", "domain"), Ok(()));
    assert_eq!(validate_route("1.2.3.4", "ip"), Ok(()));
    assert!(is_route_type("ip") && !is_route_type("ipv4"));
}

#[test]
fn bulk_validation() {
    assert_eq!(validate_bulk_routes(&[]), err("empty list"));
    assert_eq!(
        validate_bulk_routes(&[item("a", "domain"), item("b", "cidr"), item("c", "x")]),
        err("invalid type: cidr")
    );
    assert_eq!(validate_bulk_routes(&[item("a", "domain"), item("", "ip")]), Ok(()));
}

#[test]
fn name_and_server_validation() {
    assert_eq!(validate_name(""), err("name is required"));
    assert_eq!(validate_name("office"), Ok(()));
    assert_eq!(validate_server("", "", ""), err("name is required"));
    assert_eq!(validate_server("n", "", ""), err("address is required"));
    assert_eq!(validate_server("n", "a", ""), err("xui_api_key is required"));
    assert_eq!(validate_server("n", "a", "k"), Ok(()));
}

#[test]
fn new_records_get_uuids() {
    let s = new_server("de-1", "https://de1.example", "key").unwrap();
    assert_eq!((s.name.as_str(), s.address.as_str(), s.xui_api_key.as_str()), ("de-1", "https://de1.example", "key"));
    assert_eq!(s.uuid.len(), 36);
    assert_eq!(new_server("de-1", "", "key").unwrap_err(), "address is required");
    let m = new_mikrotik("home", 3, 7).unwrap();
    assert_eq!((m.name.as_str(), m.server_id, m.inbound_id), ("home", 3, 7));
    assert_ne!(m.uuid, new_mikrotik("home", 3, 7).unwrap().uuid);
    assert_eq!(m.uuid.len(), 36);
    assert_eq!(&m.uuid[14..15], "4");
    assert_eq!(&s.uuid[8..9], "-");
    assert_eq!(new_mikrotik("", 3, 7).unwrap_err(), "name is required");
}

#[test]
fn unique_violations() {
    assert!(is_unique_violation("error returned from database: (code: 2067) UNIQUE constraint failed: routes.value"));
    assert!(!is_unique_violation("FOREIGN KEY constraint failed"));
    assert!(!is_unique_violation("unique"));
    assert!(is_unique_violation("UNIQUE"));
}

#[test]
fn router_state_checks() {
    let key = Some("k".to_string());
    assert_eq!(retry_precheck("active", &key), err("already active"));
    assert_eq!(retry_precheck("pending_key", &None), err("public key not set"));
    assert_eq!(retry_precheck("pending_key", &key), Ok(()));
    assert_eq!(script_precheck("pending_key"), Ok(()));
    assert_eq!(script_precheck("active"), Ok(()));
    assert_eq!(script_precheck("disabled"), err("mikrotik not ready"));
    assert_eq!(agent_precheck("pending_key"), err("mikrotik not active"));
    assert_eq!(agent_precheck("active"), Ok(()));
}

#[test]
fn xui_urls() {
    assert_eq!(inbound_api_url("https://x.example/", "get", 3), "https://x.example/panel/api/inbounds/get/3");
    assert_eq!(inbound_api_url("https://x.example", "update", 12), "https://x.example/panel/api/inbounds/update/12");
    assert_eq!(inbound_api_url("h//", "get", -5), "h/panel/api/inbounds/get/-5");
    assert_eq!(inbound_api_url("h", "get", i64::MIN), "h/panel/api/inbounds/get/-9223372036854775808");
    assert_eq!(proxy_url("http://a:2053/", "/panel/api/inbounds/list"), "http://a:2053/panel/api/inbounds/list");
    assert_eq!(proxy_url("http://a", "x"), "http://a/x");
    assert_eq!(proxy_url("http://a//", "//x"), "http://a/x");
}

#[test]
fn proxy_methods() {
    assert_eq!(proxy_method(None), Ok(HttpMethod::Get));
    assert_eq!(proxy_method(Some("post")), Ok(HttpMethod::Post));
    assert_eq!(proxy_method(Some("Put")), Ok(HttpMethod::Put));
    assert_eq!(proxy_method(Some("delete")), Ok(HttpMethod::Delete));
    assert_eq!(proxy_method(Some("PATCH")), Ok(HttpMethod::Patch));
    assert_eq!(proxy_method(Some("TRACE")), Err("unsupported method".to_string()));
    assert_eq!(proxy_method(Some("")), Err("unsupported method".to_string()));
}

#[test]
fn inbound_lookup() {
    let inbounds = vec![
        ServerInbound { id: 1, server_id: 1, inbound_id: 10 },
        ServerInbound { id: 2, server_id: 1, inbound_id: 20 },
        ServerInbound { id: 2, server_id: 1, inbound_id: 30 },
    ];
    assert_eq!(find_inbound(&inbounds, 2), Some(20));
    assert_eq!(find_inbound(&inbounds, 3), None);
    assert_eq!(find_inbound(&[], 1), None);
}

#[test]
fn new_peer_plan() {
    let existing = vec!["10.0.0.2/32".to_string()];
    let p = plan_new_peer(&existing, &Some("PUB=".to_string())).unwrap();
    assert_eq!(p.assigned_ip, "10.0.0.3");
    assert_eq!(p.allowed_ip, "10.0.0.3/32");
    assert_eq!(p.public_key, "PUB=");
    assert_eq!(p.keep_alive, 25);
    assert_eq!(plan_new_peer(&existing, &None).unwrap_err(), "public key missing");
    let full: Vec<String> = (2..254).map(|h| format!("10.0.0.{}/32", h)).collect();
    assert_eq!(plan_new_peer(&full, &None).unwrap_err(), "IP pool exhausted");
}

#[test]
fn allowed_ips_flattened() {
    let peers = vec![
        vec![Some("10.0.0.2/32".to_string()), None],
        vec![],
        vec![Some("10.0.0.3/32".to_string()), Some("fd00::3/128".to_string())],
    ];
    assert_eq!(allowed_ips_of(&peers), vec!["10.0.0.2/32", "10.0.0.3/32", "fd00::3/128"]);
}

#[test]
fn routes_of_a_bulk_request() {
    let all = vec![route(1, "a", "domain"), route(2, "b", "ip"), route(3, "c", "domain"), route(4, "a", "ip")];
    assert_eq!(submitted_routes(&all, &[item("a", "domain"), item("c", "ip")]), vec![1, 3, 4]);
    assert_eq!(submitted_routes(&all, &[]), Vec::<i64>::new());
}

#[test]
fn group_infos() {
    let g = GroupedRoutes { group_id: Some(4), group_name: None, routes: vec![] };
    let info = group_info(&g).unwrap();
    assert_eq!((info.id, info.name.as_str()), (4, ""));
    let g = GroupedRoutes { group_id: Some(5), group_name: Some("yt".to_string()), routes: vec![] };
    assert_eq!(group_info(&g).unwrap().name, "yt");
    let g = GroupedRoutes { group_id: None, group_name: Some("x".to_string()), routes: vec![] };
    assert!(group_info(&g).is_none());
}

#[test]
fn list_entries_of_routes() {
    let all = vec![route(1, "a.b", "domain"), route(2, "1.1.1.1", "ip"), route(3, "c.d", "domain")];
    assert_eq!(domain_entries(&all), vec![GeoEntry::Domain("a.b".to_string()), GeoEntry::Domain("c.d".to_string())]);
    assert_eq!(address_entries(&all), vec![GeoEntry::Ip("1.1.1.1".to_string())]);
}
