use bypass_hub::models::Route;
use bypass_hub::script::{
    endpoint_host, generate_init_script, lists_base_url, script_assigned_ip, vpn_list_script,
    wireguard_port, ScriptError, ScriptParams,
};

fn route(id: i64, value: &str, t: &str) -> Route {
    Route { id, value: value.to_string(), route_type: t.to_string() }
}

const PREAMBLE: &str = "# bypass-hub vpn list\n# auto-generated, do not edit\n\n/ip firewall address-list remove [find list=to_vpn_list]\n/ip dns static remove [find address-list=to_vpn_list]\n\n";

#[test]
fn vpn_list_with_both_kinds() {
    let routes = vec![
        route(1, "example.com", "domain"),
        route(2, "1.2.3.0/24", "ip"),
        route(3, "youtube.com", "domain"),
        route(4, "8.8.8.8", "ip"),
        route(5, "other", "unknown"),
    ];
    let expected = format!(
        "{}{}{}",
        PREAMBLE,
        "/ip firewall address-list\nadd list=to_vpn_list address=1.2.3.0/24\nadd list=to_vpn_list address=8.8.8.8\n\n",
        "/ip dns static\nadd type=FWD address-list=to_vpn_list match-subdomain=yes name=example.com\nadd type=FWD address-list=to_vpn_list match-subdomain=yes name=youtube.com\n\n"
    );
    assert_eq!(vpn_list_script(&routes), expected);
}

#[test]
fn vpn_list_without_routes_is_the_preamble() {
    assert_eq!(vpn_list_script(&[]), PREAMBLE);
}

#[test]
fn vpn_list_with_only_domains() {
    let routes = vec![route(1, "a.b", "domain")];
    let expected = format!(
        "{}/ip dns static\nadd type=FWD address-list=to_vpn_list match-subdomain=yes name=a.b\n\n",
        PREAMBLE
    );
    assert_eq!(vpn_list_script(&routes), expected);
}

#[test]
fn endpoint_hosts() {
    assert_eq!(endpoint_host("https://vpn.example.com:2053/panel/"), "vpn.example.com:2053");
    assert_eq!(endpoint_host("http://1.2.3.4/"), "1.2.3.4");
    assert_eq!(endpoint_host("https://https://x.org"), "x.org");
    assert_eq!(endpoint_host("vpn.example.com"), "vpn.example.com");
    assert_eq!(endpoint_host("https://a.b///"), "a.b");
    assert_eq!(endpoint_host(""), "");
}

#[test]
fn wireguard_ports() {
    assert_eq!(wireguard_port(Some(51821)), 51821);
    assert_eq!(wireguard_port(Some(70000)), 4464);
    assert_eq!(wireguard_port(None), 51820);
}

#[test]
fn base_url_default() {
    assert_eq!(lists_base_url(None), "http://127.0.0.1:8080");
    assert_eq!(lists_base_url(Some("https://hub.example".to_string())), "https://hub.example");
}

#[test]
fn assigned_ip_prefers_stored() {
    let existing = vec!["10.0.0.2/32".to_string()];
    assert_eq!(script_assigned_ip(&Some("10.0.0.9".to_string()), &existing), Some("10.0.0.9".to_string()));
    assert_eq!(script_assigned_ip(&None, &existing), Some("10.0.0.3".to_string()));
}

fn params() -> ScriptParams {
    ScriptParams {
        endpoint_address: "vpn.example.com".to_string(),
        endpoint_port: 51820,
        server_public_key: "KEY=".to_string(),
        assigned_ip: "10.0.0.2".to_string(),
        mikrotik_uuid: "1234".to_string(),
        lists_base_url: "https://hub".to_string(),
    }
}

#[test]
fn init_script_renders_all_variables() {
    let tpl = "{{ uuid }}|{{ endpoint_address }}:{{ endpoint_port }}|{{ server_public_key }}|{{ assigned_ip }}|{{ lists_base_url }}/lists/mikrotik/{{ uuid }}";
    let out = generate_init_script(tpl, &params()).unwrap();
    assert_eq!(out, "1234|vpn.example.com:51820|KEY=|10.0.0.2|https://hub/lists/mikrotik/1234");
}

#[test]
fn init_script_with_broken_template_fails() {
    assert_eq!(generate_init_script("{{ uuid ", &params()), Err(ScriptError::Render));
}
