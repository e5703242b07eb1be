use base64::Engine;
use bypass_hub::wireguard::{next_peer_ip, peer_address_of, public_key_from_secret, public_key_from_secret_bytes};

fn strings(v: &[&str]) -> Vec<String> {
    v.iter().map(|s| s.to_string()).collect()
}

#[test]
fn public_key_of_rfc7748_alice() {
    let r = public_key_from_secret("dwdtCnMYpX08FsFyUbJmRd9ML4frwJkqsXf7pR25LCo=");
    assert_eq!(r, Ok("hSDwCYkwp1R0i33ctD73Wg2/Og0mOBr066SpjqqbTmo=".to_string()));
    assert_eq!(r.unwrap().len(), 44);
}

#[test]
fn public_key_of_non_base64_is_decode_error() {
    let e = public_key_from_secret("not base64!").unwrap_err();
    let decoder = base64::engine::general_purpose::STANDARD.decode("not base64!").unwrap_err();
    assert_eq!(e, format!("base64 decode error: {}", decoder));
    assert!(e.len() > "base64 decode error: ".len());
}

#[test]
fn public_key_of_short_secret_is_rejected() {
    let r = public_key_from_secret("AAAAAAAAAAAAAAAAAAAAAA==");
    assert_eq!(r, Err("secret key must be 32 bytes".to_string()));
    assert_eq!(public_key_from_secret_bytes(&[0u8; 33]), Err("secret key must be 32 bytes".to_string()));
}

#[test]
fn public_key_from_bytes_matches_text_form() {
    let secret: Vec<u8> = (0u8..32).collect();
    let a = public_key_from_secret_bytes(&secret).unwrap();
    assert_eq!(a.len(), 44);
    assert_ne!(a, "AAECAwQFBgcICQoLDA0ODxAREhMUFRYXGBkaGxwdHh8=");
}

#[test]
fn first_allocation_is_dot_two() {
    assert_eq!(next_peer_ip(&[]), Some("10.0.0.2".to_string()));
}

#[test]
fn allocation_skips_taken_hosts() {
    let existing = strings(&["10.0.0.2/32", "10.0.0.3/32", "10.0.0.5/32"]);
    assert_eq!(next_peer_ip(&existing), Some("10.0.0.4".to_string()));
}

#[test]
fn allocation_reads_entries_without_prefix_and_with_leading_zeros() {
    let existing = strings(&["10.0.0.2", "10.0.0.03/32"]);
    assert_eq!(next_peer_ip(&existing), Some("10.0.0.4".to_string()));
}

#[test]
fn allocation_uses_network_of_first_entry() {
    let existing = strings(&["192.168.1.2/32"]);
    assert_eq!(next_peer_ip(&existing), Some("192.168.1.3".to_string()));
    // entries without an IPv4 address are skipped, also for the network
    let existing = strings(&["10.0.0/32", "fd00::2/128", "", "10.0.0.2.5/32", "172.16.5.9/24"]);
    assert_eq!(next_peer_ip(&existing), Some("172.16.5.2".to_string()));
    // addresses of other networks do not take hosts of this one
    let existing = strings(&["192.168.0.2/32", "10.0.0.3/32", "192.168.0.3/32"]);
    assert_eq!(next_peer_ip(&existing), Some("192.168.0.4".to_string()));
}

#[test]
fn allocation_defaults_to_ten_network() {
    let existing = strings(&["10.0.0/32", "fd00::2/128", "", "10.0.0.2.5/32"]);
    assert_eq!(next_peer_ip(&existing), Some("10.0.0.2".to_string()));
}

#[test]
fn more_entries_never_lower_the_allocation() {
    let a = strings(&["10.0.0.2/32", "10.0.0.4/32"]);
    let mut ab = a.clone();
    ab.extend(strings(&["10.0.0.3/32", "10.0.0.9/32"]));
    assert_eq!(next_peer_ip(&a), Some("10.0.0.3".to_string()));
    assert_eq!(next_peer_ip(&ab), Some("10.0.0.5".to_string()));
}

#[test]
fn allocation_skips_unparsable_pieces() {
    // "x" does not parse and is skipped, leaving four octets 10.0.0.2
    let existing = strings(&["10.x.0.0.2/32"]);
    assert_eq!(next_peer_ip(&existing), Some("10.0.0.3".to_string()));
}

#[test]
fn exhausted_pool_gives_none() {
    let existing: Vec<String> = (2..254).map(|h| format!("10.0.0.{}/32", h)).collect();
    assert_eq!(next_peer_ip(&existing), None);
    let mut almost = existing.clone();
    almost.retain(|e| e != "10.0.0.253/32");
    assert_eq!(next_peer_ip(&almost), Some("10.0.0.253".to_string()));
}

#[test]
fn allocation_never_repeats_after_adding_the_peer() {
    let mut existing: Vec<String> = Vec::new();
    let mut seen = Vec::new();
    for _ in 0..10 {
        let ip = next_peer_ip(&existing).unwrap();
        assert!(!seen.contains(&ip));
        seen.push(ip.clone());
        existing.push(format!("{}/32", ip));
    }
    assert_eq!(seen.last().unwrap(), "10.0.0.11");
}

#[test]
fn peer_addresses_of_entries() {
    assert_eq!(peer_address_of("10.0.0.7/32"), Some(0x0A00_0007));
    assert_eq!(peer_address_of("255.255.255.255"), Some(0xFFFF_FFFF));
    assert_eq!(peer_address_of("1.2.3"), None);
    assert_eq!(peer_address_of("1.2.256.3"), None);
    assert_eq!(peer_address_of("+1.2.3.4/8"), Some(0x0102_0304));
}

#[test]
fn allocation_ignores_order_and_repetition() {
    let a = strings(&["10.0.0.3/32", "10.0.0.2/32", "garbage"]);
    let b = strings(&["10.0.0.2", "10.0.0.3/32", "10.0.0.2/32"]);
    assert_eq!(next_peer_ip(&a), Some("10.0.0.4".to_string()));
    assert_eq!(next_peer_ip(&a), next_peer_ip(&b));
}
