use bypass_hub::geo::{addresses_fit_entries, build_geoip, build_geosite, cidr_parts, encode_geoip, encode_geosite, GeoEntry, GeoError};
use prost::encoding::{encode_key, encode_varint, WireType};

fn domain(s: &str) -> GeoEntry {
    GeoEntry::Domain(s.to_string())
}

fn ip(s: &str) -> GeoEntry {
    GeoEntry::Ip(s.to_string())
}

fn len_delimited(tag: u32, payload: &[u8], out: &mut Vec<u8>) {
    encode_key(tag, WireType::LengthDelimited, out);
    encode_varint(payload.len() as u64, out);
    out.extend_from_slice(payload);
}

fn expected_geosite(code: &str, domains: &[&str]) -> Vec<u8> {
    let mut site = Vec::new();
    if !code.is_empty() {
        prost::encoding::string::encode(1, &code.to_string(), &mut site);
    }
    for d in domains {
        let mut msg = Vec::new();
        prost::encoding::int32::encode(1, &2, &mut msg);
        if !d.is_empty() {
            prost::encoding::string::encode(2, &d.to_string(), &mut msg);
        }
        len_delimited(2, &msg, &mut site);
    }
    let mut out = Vec::new();
    len_delimited(1, &site, &mut out);
    out
}

fn expected_geoip(code: &str, cidrs: &[(&[u8], u32)]) -> Vec<u8> {
    let mut entry = Vec::new();
    if !code.is_empty() {
        prost::encoding::string::encode(1, &code.to_string(), &mut entry);
    }
    for (ip, prefix) in cidrs {
        let mut msg = Vec::new();
        if !ip.is_empty() {
            prost::encoding::bytes::encode(1, &ip.to_vec(), &mut msg);
        }
        if *prefix != 0 {
            prost::encoding::uint32::encode(2, prefix, &mut msg);
        }
        len_delimited(2, &msg, &mut entry);
    }
    let mut out = Vec::new();
    len_delimited(1, &entry, &mut out);
    out
}

#[test]
fn geosite_exact_bytes_for_one_domain() {
    let bytes = encode_geosite("BYPASS", &[domain("a.io")]);
    let expected: Vec<u8> = vec![
        0x0a, 0x12, 0x0a, 0x06, b'B', b'Y', b'P', b'A', b'S', b'S', 0x12, 0x08, 0x08, 0x02, 0x12,
        0x04, b'a', b'.', b'i', b'o',
    ];
    assert_eq!(bytes, expected);
}

#[test]
fn geosite_upper_cases_tag_and_skips_addresses() {
    let entries = vec![domain("example.com"), ip("1.2.3.4"), domain("youtube.com")];
    let bytes = build_geosite("bypass", &entries);
    assert_eq!(bytes, expected_geosite("BYPASS", &["example.com", "youtube.com"]));
}

#[test]
fn geosite_without_domains_still_has_its_entry() {
    let bytes = build_geosite("bypass", &[ip("1.2.3.4")]);
    assert_eq!(bytes, vec![0x0a, 0x08, 0x0a, 0x06, b'B', b'Y', b'P', b'A', b'S', b'S']);
}

#[test]
fn geosite_empty_tag_and_empty_domain_are_skipped_fields() {
    let bytes = encode_geosite("", &[domain("")]);
    assert_eq!(bytes, vec![0x0a, 0x04, 0x12, 0x02, 0x08, 0x02]);
}

#[test]
fn geosite_long_domain_uses_multibyte_length() {
    let long = "d".repeat(200);
    let bytes = build_geosite("x", &[domain(&long)]);
    assert_eq!(bytes, expected_geosite("X", &[long.as_str()]));
}

#[test]
fn geosite_non_ascii_domain_is_utf8() {
    let bytes = build_geosite("bypass", &[domain("пример.рф")]);
    assert_eq!(bytes, expected_geosite("BYPASS", &["пример.рф"]));
}

#[test]
fn cidr_parts_of_entries() {
    assert_eq!(cidr_parts("1.2.3.4/24"), Some(("1.2.3.4".to_string(), 24)));
    assert_eq!(cidr_parts("1.2.3.4"), Some(("1.2.3.4".to_string(), 32)));
    assert_eq!(cidr_parts("2001:db8::1"), Some(("2001:db8::1".to_string(), 128)));
    assert_eq!(cidr_parts("2001:db8::/32"), Some(("2001:db8::".to_string(), 32)));
    assert_eq!(cidr_parts("1.2.3.4/+7"), Some(("1.2.3.4".to_string(), 7)));
    assert_eq!(cidr_parts("1.2.3.4/1/2"), None);
    assert_eq!(cidr_parts("1.2.3.4/"), None);
    assert_eq!(cidr_parts("1.2.3.4/-1"), None);
    assert_eq!(cidr_parts("1.2.3.4/4294967296"), None);
    assert_eq!(cidr_parts("1.2.3.4/4294967295"), Some(("1.2.3.4".to_string(), 4294967295)));
}

#[test]
fn geoip_exact_bytes() {
    let entries = vec![ip("1.2.3.4/24")];
    let bytes = encode_geoip("BYPASS", &entries, &[Some(vec![1, 2, 3, 4])]).unwrap();
    let expected: Vec<u8> = vec![
        0x0a, 0x12, 0x0a, 0x06, b'B', b'Y', b'P', b'A', b'S', b'S', 0x12, 0x08, 0x0a, 0x04, 1, 2, 3,
        4, 0x10, 0x18,
    ];
    assert_eq!(bytes, expected);
}

#[test]
fn geoip_mixed_entries() {
    let entries = vec![ip("10.0.0.0/8"), domain("example.com"), ip("::1"), ip("8.8.8.8")];
    let v6 = {
        let mut v = vec![0u8; 16];
        v[15] = 1;
        v
    };
    let addresses = vec![Some(vec![10, 0, 0, 0]), None, Some(v6.clone()), Some(vec![8, 8, 8, 8])];
    let bytes = build_geoip("bypass", &entries, &addresses).unwrap();
    let expected = expected_geoip(
        "BYPASS",
        &[(&[10, 0, 0, 0], 8), (&v6, 128), (&[8, 8, 8, 8], 32)],
    );
    assert_eq!(bytes, expected);
}

#[test]
fn geoip_zero_prefix_is_not_written() {
    let bytes = encode_geoip("X", &[ip("0.0.0.0/0")], &[Some(vec![0, 0, 0, 0])]).unwrap();
    assert_eq!(bytes, expected_geoip("X", &[(&[0, 0, 0, 0], 0)]));
}

#[test]
fn geoip_bad_prefix_is_invalid_ip() {
    let entries = vec![ip("1.1.1.1"), ip("1.2.3.4/abc"), ip("nonsense")];
    let r = build_geoip("bypass", &entries, &[Some(vec![1, 1, 1, 1]), None, None]);
    assert_eq!(r, Err(GeoError::InvalidIp("1.2.3.4/abc".to_string())));
}

#[test]
fn geoip_unparsed_address_is_invalid_ip() {
    let entries = vec![ip("999.1.1.1/8")];
    let r = build_geoip("bypass", &entries, &[None]);
    let e = r.unwrap_err();
    assert_eq!(e, GeoError::InvalidIp("999.1.1.1/8".to_string()));
    assert_eq!(e.message(), "invalid IP: 999.1.1.1/8");
}

#[test]
fn geoip_without_addresses() {
    let bytes = build_geoip("bypass", &[domain("a.b")], &[None]).unwrap();
    assert_eq!(bytes, expected_geoip("BYPASS", &[]));
}

#[test]
fn geosite_ignores_address_entries_and_tag_case() {
    let with = build_geosite("bypass", &[domain("a.com"), ip("1.2.3.4/32"), domain("b.org")]);
    let without = build_geosite("bypass", &[domain("a.com"), domain("b.org")]);
    assert_eq!(with, without);
    assert_eq!(build_geosite("ByPass", &[domain("a.com"), domain("b.org")]), without);
}

#[test]
fn geoip_ignores_domain_entries_and_tag_case() {
    let with = build_geoip(
        "bypass",
        &[ip("1.2.3.0/24"), domain("a.com"), ip("8.8.8.8")],
        &[Some(vec![1, 2, 3, 0]), None, Some(vec![8, 8, 8, 8])],
    );
    let without = build_geoip(
        "BYPASS",
        &[ip("1.2.3.0/24"), ip("8.8.8.8")],
        &[Some(vec![1, 2, 3, 0]), Some(vec![8, 8, 8, 8])],
    );
    assert_eq!(with, without);
    assert!(with.is_ok());
}

#[test]
fn address_lengths_follow_the_entry_text() {
    let entries = vec![ip("10.0.0.0/8"), domain("a.com"), ip("::1/128"), ip("bad/x")];
    let v6 = vec![0u8; 16];
    let fitting = vec![Some(vec![10, 0, 0, 0]), None, Some(v6.clone()), Some(vec![1])];
    assert!(addresses_fit_entries(&entries, &fitting));
    let swapped = vec![Some(v6.clone()), None, Some(vec![0, 0, 0, 1]), None];
    assert!(!addresses_fit_entries(&entries, &swapped));
}

#[test]
fn geoip_ignores_every_domain_entry() {
    let with = build_geoip(
        "bypass",
        &[domain("x.org"), ip("1.2.3.0/24"), domain("a.com"), domain("b.net"), ip("8.8.8.8")],
        &[None, Some(vec![1, 2, 3, 0]), None, None, Some(vec![8, 8, 8, 8])],
    );
    let without = build_geoip(
        "bypass",
        &[ip("1.2.3.0/24"), ip("8.8.8.8")],
        &[Some(vec![1, 2, 3, 0]), Some(vec![8, 8, 8, 8])],
    );
    assert_eq!(with, without);
}
