//! Geosite and geoip files for xray: the route lists as V2Ray protobuf
//! messages (`GeoSiteList` and `GeoIPList` with a single entry).

use vstd::prelude::*;
use vstd::string::*;
use crate::protobuf::{
    bytes_field, length_delimited, varint, push_bytes, put_bytes, put_length_delimited, put_string, put_uint, string_field,
    uint_field,
};
use crate::text::{
    decimal, find_char, first_index_of, is_first_index, lemma_first_index_unique,
    lemma_parse_decimal, parse_u32, parse_unsigned, to_uppercase, uppercase,
};

verus! {

/// One route of a list: a domain ("example.com") or an address with an
/// optional prefix length ("1.2.3.4/24", "1.2.3.4", "2001:db8::/32").
#[derive(Debug, Clone, PartialEq, Eq)]
pub enum GeoEntry {
    Domain(String),
    Ip(String),
}

/// Why a geoip file could not be built.
#[derive(Debug, Clone, PartialEq, Eq)]
pub enum GeoError {
    /// The entry (as written) is not an address with a valid prefix.
    InvalidIp(String),
}

/// The text of an error: "invalid IP: " and the offending entry.
pub open spec fn geo_error_text(e: GeoError) -> Seq<char> {
    match e {
        GeoError::InvalidIp(s) => "invalid IP: "@ + s@,
    }
}

impl GeoError {
    /// Human-readable form of the error.
    pub fn message(&self) -> (m: String)
        ensures
            m@ == geo_error_text(*self),
    {
        match self {
            GeoError::InvalidIp(s) => {
                let mut m = String::from_str("invalid IP: ");
                m.append(s.as_str());
                m
            },
        }
    }
}

/// Domain type "Domain" of V2Ray's routing rules: the domain and all of its
/// subdomains.
pub open spec fn domain_kind_subdomains() -> nat {
    2
}

/// The domains among `entries`, in order.
pub open spec fn domains_of(entries: Seq<GeoEntry>) -> Seq<Seq<char>>
    decreases entries.len(),
{
    if entries.len() == 0 {
        Seq::empty()
    } else {
        let rest = domains_of(entries.drop_last());
        match entries.last() {
            GeoEntry::Domain(d) => rest.push(d@),
            GeoEntry::Ip(_) => rest,
        }
    }
}

/// `Domain { type = 2, value }`.
pub open spec fn domain_message(value: Seq<char>) -> Seq<u8> {
    uint_field(1, domain_kind_subdomains()) + string_field(2, value)
}

/// The repeated `domain` field (number 2) of a `GeoSite`.
pub open spec fn domain_records(domains: Seq<Seq<char>>) -> Seq<u8>
    decreases domains.len(),
{
    if domains.len() == 0 {
        Seq::empty()
    } else {
        domain_records(domains.drop_last()) + length_delimited(2, domain_message(domains.last()))
    }
}

/// `GeoSite { country_code, domain }`.
pub open spec fn geosite_message(country_code: Seq<char>, domains: Seq<Seq<char>>) -> Seq<u8> {
    string_field(1, country_code) + domain_records(domains)
}

/// `GeoSiteList { entry: [GeoSite { country_code, domain }] }`.
pub open spec fn geosite_file(country_code: Seq<char>, domains: Seq<Seq<char>>) -> Seq<u8> {
    length_delimited(1, geosite_message(country_code, domains))
}

/// Encodes the geosite file whose single entry has the code `country_code`
/// and holds the domains of `entries` (each with its subdomains), in order.
/// Address entries are left out.
pub fn encode_geosite(country_code: &str, entries: &[GeoEntry]) -> (r: Vec<u8>)
    ensures
        r@ == geosite_file(country_code@, domains_of(entries@)),
{
    let mut site: Vec<u8> = Vec::new();
    put_string(1, country_code, &mut site);
    let n = entries.len();
    let mut i: usize = 0;
    assert(entries@.take(0) == Seq::<GeoEntry>::empty());
    while i < n
        invariant
            n == entries@.len(),
            i <= n,
            site@ == string_field(1, country_code@) + domain_records(domains_of(entries@.take(i as int))),
        decreases n - i,
    {
        let ghost prefix = entries@.take(i as int);
        let ghost before = site@;
        assert(entries@.take(i + 1).drop_last() == prefix);
        assert(entries@.take(i + 1).last() == entries@[i as int]);
        match &entries[i] {
            GeoEntry::Domain(d) => {
                let mut msg: Vec<u8> = Vec::new();
                put_uint(1, 2, &mut msg);
                put_string(2, d.as_str(), &mut msg);
                put_length_delimited(2, msg.as_slice(), &mut site);
                let ghost ds = domains_of(prefix);
                assert(domains_of(entries@.take(i + 1)) == ds.push(d@));
                assert(ds.push(d@).drop_last() == ds);
                assert(site@ == string_field(1, country_code@) + (domain_records(ds) + length_delimited(
                    2,
                    domain_message(d@),
                )));
            },
            GeoEntry::Ip(_) => {
                assert(domains_of(entries@.take(i + 1)) == domains_of(prefix));
            },
        }
        i = i + 1;
    }
    assert(entries@.take(n as int) == entries@);
    let mut out: Vec<u8> = Vec::new();
    put_length_delimited(1, site.as_slice(), &mut out);
    out
}

/// Builds the geosite file for xray: one entry tagged with the upper-cased
/// `tag`, listing every domain entry (with its subdomains), in order.
pub fn build_geosite(tag: &str, entries: &[GeoEntry]) -> (r: Vec<u8>)
    ensures
        r@ == geosite_file(uppercase(tag@), domains_of(entries@)),
{
    let code = to_uppercase(tag);
    encode_geosite(code.as_str(), entries)
}


/// The address text and prefix length that an address entry denotes.
/// With a `/`, the prefix is the decimal number after the first `/` and
/// must fit in a `u32`; without one it is 128 when the address holds a `:`
/// (IPv6) and 32 otherwise.  `None` when the prefix does not parse.
pub open spec fn address_and_prefix(raw: Seq<char>) -> Option<(Seq<char>, u32)> {
    match first_index_of(raw, '/') {
        Some(k) => match parse_unsigned(raw.skip(k + 1), 0xffff_ffff) {
            Some(p) => Some((raw.take(k), p as u32)),
            None => None,
        },
        None => Some((raw, if raw.contains(':') { 128u32 } else { 32u32 })),
    }
}

/// Splits an address entry into its address text and prefix length.
pub fn cidr_parts(raw: &str) -> (r: Option<(String, u32)>)
    ensures
        match address_and_prefix(raw@) {
            Some((a, p)) => r matches Some((a2, p2)) && a2@ == a && p2 == p,
            None => r is None,
        },
{
    let n = raw.unicode_len();
    match find_char(raw, '/') {
        Some(k) => {
            let prefix_text = raw.substring_char(k + 1, n);
            match parse_u32(prefix_text) {
                Some(p) => {
                    let address = raw.substring_char(0, k).to_owned();
                    Some((address, p))
                },
                None => None,
            }
        },
        None => {
            let prefix: u32 = match find_char(raw, ':') {
                Some(_) => 128,
                None => 32,
            };
            Some((raw.to_owned(), prefix))
        },
    }
}

/// `CIDR { ip, prefix }`.
pub open spec fn cidr_message(ip: Seq<u8>, prefix: u32) -> Seq<u8> {
    bytes_field(1, ip) + uint_field(2, prefix as nat)
}

/// The repeated `cidr` field (number 2) of a `GeoIP`.
pub open spec fn cidr_records(cidrs: Seq<(Seq<u8>, u32)>) -> Seq<u8>
    decreases cidrs.len(),
{
    if cidrs.len() == 0 {
        Seq::empty()
    } else {
        cidr_records(cidrs.drop_last()) + length_delimited(
            2,
            cidr_message(cidrs.last().0, cidrs.last().1),
        )
    }
}

/// `GeoIP { country_code, cidr }`.
pub open spec fn geoip_message(country_code: Seq<char>, cidrs: Seq<(Seq<u8>, u32)>) -> Seq<u8> {
    string_field(1, country_code) + cidr_records(cidrs)
}

/// `GeoIPList { entry: [GeoIP { country_code, cidr }] }`.
pub open spec fn geoip_file(country_code: Seq<char>, cidrs: Seq<(Seq<u8>, u32)>) -> Seq<u8> {
    length_delimited(1, geoip_message(country_code, cidrs))
}

/// The networks of the address entries among `entries`, in order, where
/// `addresses[i]` is the parsed address (octets) of the address text of
/// `entries[i]`.  The first address entry whose prefix does not parse, or
/// whose address did not parse, is the error, as written.
pub open spec fn cidrs_of(entries: Seq<GeoEntry>, addresses: Seq<Option<Vec<u8>>>) -> Result<
    Seq<(Seq<u8>, u32)>,
    Seq<char>,
>
    decreases entries.len(),
{
    if entries.len() == 0 {
        Ok(Seq::empty())
    } else {
        match cidrs_of(entries.drop_last(), addresses) {
            Err(e) => Err(e),
            Ok(acc) => match entries.last() {
                GeoEntry::Domain(_) => Ok(acc),
                GeoEntry::Ip(raw) => match (
                    address_and_prefix(raw@),
                    addresses[entries.len() - 1],
                ) {
                    (Some((_, p)), Some(ip)) => Ok(acc.push((ip@, p))),
                    _ => Err(raw@),
                },
            },
        }
    }
}

proof fn lemma_cidrs_error_sticks(
    entries: Seq<GeoEntry>,
    addresses: Seq<Option<Vec<u8>>>,
    m: int,
    j: int,
)
    requires
        0 <= m <= j <= entries.len(),
        cidrs_of(entries.take(m), addresses) is Err,
    ensures
        cidrs_of(entries.take(j), addresses) == cidrs_of(entries.take(m), addresses),
    decreases j - m,
{
    if j > m {
        lemma_cidrs_error_sticks(entries, addresses, m, j - 1);
        assert(entries.take(j).drop_last() == entries.take(j - 1));
    }
}

/// Encodes the geoip file whose single entry has the code `country_code`
/// and holds the networks of the address entries of `entries`, in order;
/// `addresses[i]` is the parsed address of the address text of
/// `entries[i]` (see `cidr_parts`), or `None` where it did not parse.
/// Domain entries are left out.  Fails with the first address entry whose
/// prefix or address does not parse.
pub fn encode_geoip(country_code: &str, entries: &[GeoEntry], addresses: &[Option<Vec<u8>>]) -> (r:
    Result<Vec<u8>, GeoError>)
    requires
        addresses@.len() == entries@.len(),
    ensures
        match cidrs_of(entries@, addresses@) {
            Ok(cidrs) => r matches Ok(bytes) && bytes@ == geoip_file(country_code@, cidrs),
            Err(raw) => r matches Err(GeoError::InvalidIp(s)) && s@ == raw,
        },
{
    let n = entries.len();
    let mut records: Vec<u8> = Vec::new();
    let mut i: usize = 0;
    assert(entries@.take(0) == Seq::<GeoEntry>::empty());
    while i < n
        invariant
            n == entries@.len(),
            n == addresses@.len(),
            i <= n,
            cidrs_of(entries@.take(i as int), addresses@) is Ok,
            records@ == cidr_records(cidrs_of(entries@.take(i as int), addresses@)->Ok_0),
        decreases n - i,
    {
        let ghost prefix = entries@.take(i as int);
        let ghost acc = cidrs_of(prefix, addresses@)->Ok_0;
        assert(entries@.take(i + 1).drop_last() == prefix);
        assert(entries@.take(i + 1).last() == entries@[i as int]);
        assert(entries@.take(i + 1).len() - 1 == i);
        match &entries[i] {
            GeoEntry::Domain(_) => {},
            GeoEntry::Ip(raw) => {
                let parts = cidr_parts(raw.as_str());
                match (parts, &addresses[i]) {
                    (Some((_, prefix_len)), Some(ip)) => {
                        let mut msg: Vec<u8> = Vec::new();
                        put_bytes(1, ip.as_slice(), &mut msg);
                        put_uint(2, prefix_len as u64, &mut msg);
                        let ghost c = (ip@, prefix_len);
                        assert(cidrs_of(entries@.take(i + 1), addresses@)->Ok_0 == acc.push(c));
                        assert(acc.push(c).drop_last() == acc);
                        put_length_delimited(2, msg.as_slice(), &mut records);
                    },
                    _ => {
                        proof {
                            lemma_cidrs_error_sticks(entries@, addresses@, i + 1, n as int);
                            assert(entries@.take(n as int) == entries@);
                        }
                        return Err(GeoError::InvalidIp(raw.clone()));
                    },
                }
            },
        }
        i = i + 1;
    }
    assert(entries@.take(n as int) == entries@);
    let mut message: Vec<u8> = Vec::new();
    put_string(1, country_code, &mut message);
    push_bytes(&mut message, records.as_slice());
    let mut out: Vec<u8> = Vec::new();
    put_length_delimited(1, message.as_slice(), &mut out);
    Ok(out)
}

/// The parsed address handed with an entry has the length its text calls
/// for: 16 octets (IPv6) when the address text holds a `:`, else 4 (IPv4).
/// Domains, entries whose prefix does not parse, and missing addresses ask
/// for nothing.
pub open spec fn address_fits(entry: GeoEntry, address: Option<Vec<u8>>) -> bool {
    match entry {
        GeoEntry::Ip(raw) => match (address_and_prefix(raw@), address) {
            (Some((a, _)), Some(v)) => v@.len() == if a.contains(':') {
                16int
            } else {
                4int
            },
            _ => true,
        },
        GeoEntry::Domain(_) => true,
    }
}

/// Every entry's parsed address has the length its text calls for.
pub open spec fn addresses_fit(entries: Seq<GeoEntry>, addresses: Seq<Option<Vec<u8>>>) -> bool {
    forall|i: int| 0 <= i < entries.len() ==> address_fits(#[trigger] entries[i], addresses[i])
}

/// Whether every parsed address has the length its entry's text calls for.
pub fn addresses_fit_entries(entries: &[GeoEntry], addresses: &[Option<Vec<u8>>]) -> (r: bool)
    requires
        addresses@.len() == entries@.len(),
    ensures
        r == addresses_fit(entries@, addresses@),
{
    let n = entries.len();
    let mut i: usize = 0;
    while i < n
        invariant
            n == entries@.len(),
            n == addresses@.len(),
            i <= n,
            forall|j: int| 0 <= j < i ==> address_fits(#[trigger] entries@[j], addresses@[j]),
        decreases n - i,
    {
        match (&entries[i], &addresses[i]) {
            (GeoEntry::Ip(raw), Some(v)) => {
                match cidr_parts(raw.as_str()) {
                    Some((a, _)) => {
                        let want: usize = match find_char(a.as_str(), ':') {
                            Some(_) => 16,
                            None => 4,
                        };
                        if v.len() != want {
                            assert(!address_fits(entries@[i as int], addresses@[i as int]));
                            return false;
                        }
                    },
                    None => {},
                }
            },
            _ => {},
        }
        assert(address_fits(entries@[i as int], addresses@[i as int]));
        i = i + 1;
    }
    true
}

/// Builds the geoip file for xray: one entry tagged with the upper-cased
/// `tag`, listing the network of every address entry, in order.
/// `addresses[i]` is the parsed address (4 octets for IPv4, 16 for IPv6)
/// of the address text of `entries[i]` as `cidr_parts` gives it, or `None`
/// where it does not parse (or the entry is a domain).  Fails with
/// `InvalidIp` and the entry as written at the first address entry whose
/// prefix or address does not parse.
pub fn build_geoip(tag: &str, entries: &[GeoEntry], addresses: &[Option<Vec<u8>>]) -> (r: Result<
    Vec<u8>,
    GeoError,
>)
    requires
        addresses@.len() == entries@.len(),
        addresses_fit(entries@, addresses@),
    ensures
        match cidrs_of(entries@, addresses@) {
            Ok(cidrs) => r matches Ok(bytes) && bytes@ == geoip_file(uppercase(tag@), cidrs),
            Err(raw) => r matches Err(GeoError::InvalidIp(s)) && s@ == raw,
        },
{
    let code = to_uppercase(tag);
    encode_geoip(code.as_str(), entries, addresses)
}

proof fn lemma_domains_of_concat(a: Seq<GeoEntry>, b: Seq<GeoEntry>)
    ensures
        domains_of(a + b) == domains_of(a) + domains_of(b),
    decreases b.len(),
{
    if b.len() == 0 {
        assert(a + b == a);
        assert(domains_of(a) + domains_of(b) == domains_of(a));
    } else {
        lemma_domains_of_concat(a, b.drop_last());
        assert((a + b).drop_last() == a + b.drop_last());
        assert((a + b).last() == b.last());
    }
}

/// An address entry never changes a geosite file: the file of `a`, the
/// entry and `b` is that of `a` and `b`.
pub proof fn law_geosite_ignores_addresses(
    tag: Seq<char>,
    a: Seq<GeoEntry>,
    x: String,
    b: Seq<GeoEntry>,
)
    ensures
        geosite_file(uppercase(tag), domains_of(a.push(GeoEntry::Ip(x)) + b)) == geosite_file(
            uppercase(tag),
            domains_of(a + b),
        ),
{
    lemma_domains_of_concat(a.push(GeoEntry::Ip(x)), b);
    lemma_domains_of_concat(a, b);
    assert(a.push(GeoEntry::Ip(x)).drop_last() == a);
}

/// Tags that upper-case alike give the same geosite file.
pub proof fn law_geosite_tag_case(t1: Seq<char>, t2: Seq<char>, entries: Seq<GeoEntry>)
    requires
        uppercase(t1) == uppercase(t2),
    ensures
        geosite_file(uppercase(t1), domains_of(entries)) == geosite_file(
            uppercase(t2),
            domains_of(entries),
        ),
{
}

proof fn lemma_cidrs_same_addresses(
    entries: Seq<GeoEntry>,
    ad1: Seq<Option<Vec<u8>>>,
    ad2: Seq<Option<Vec<u8>>>,
)
    requires
        forall|i: int| 0 <= i < entries.len() ==> ad1[i] == ad2[i],
    ensures
        cidrs_of(entries, ad1) == cidrs_of(entries, ad2),
    decreases entries.len(),
{
    if entries.len() > 0 {
        lemma_cidrs_same_addresses(entries.drop_last(), ad1, ad2);
        assert(ad1[entries.len() - 1] == ad2[entries.len() - 1]);
    }
}

proof fn lemma_cidrs_without_domain(
    a: Seq<GeoEntry>,
    d: String,
    b: Seq<GeoEntry>,
    aa: Seq<Option<Vec<u8>>>,
    o: Option<Vec<u8>>,
    bb: Seq<Option<Vec<u8>>>,
)
    requires
        a.len() == aa.len(),
        b.len() <= bb.len(),
    ensures
        cidrs_of(a.push(GeoEntry::Domain(d)) + b, aa.push(o) + bb) == cidrs_of(a + b, aa + bb),
    decreases b.len(),
{
    let x = aa.push(o) + bb;
    let y = aa + bb;
    let l = a.push(GeoEntry::Domain(d)) + b;
    let r = a + b;
    if b.len() == 0 {
        assert(l == a.push(GeoEntry::Domain(d)));
        assert(r == a);
        assert(l.drop_last() == a);
        assert forall|i: int| 0 <= i < a.len() implies x[i] == y[i] by {
            assert(x[i] == aa[i]);
            assert(y[i] == aa[i]);
        }
        lemma_cidrs_same_addresses(a, x, y);
    } else {
        lemma_cidrs_without_domain(a, d, b.drop_last(), aa, o, bb);
        assert(l.drop_last() == a.push(GeoEntry::Domain(d)) + b.drop_last());
        assert(r.drop_last() == a + b.drop_last());
        assert(l.last() == b.last());
        assert(r.last() == b.last());
        assert(x[l.len() - 1] == bb[b.len() - 1]);
        assert(y[r.len() - 1] == bb[b.len() - 1]);
    }
}

/// A domain entry never changes a geoip outcome: the networks (or the
/// error) of `a`, the entry and `b` are those of `a` and `b`, each entry
/// with its parsed address.
pub proof fn law_geoip_ignores_domains(
    a: Seq<GeoEntry>,
    d: String,
    b: Seq<GeoEntry>,
    aa: Seq<Option<Vec<u8>>>,
    o: Option<Vec<u8>>,
    bb: Seq<Option<Vec<u8>>>,
)
    requires
        a.len() == aa.len(),
        b.len() == bb.len(),
    ensures
        cidrs_of(a.push(GeoEntry::Domain(d)) + b, aa.push(o) + bb) == cidrs_of(a + b, aa + bb),
{
    lemma_cidrs_without_domain(a, d, b, aa, o, bb);
}

/// The address entries of `entries`, each with its parsed address from
/// `addresses` (the one at the same position), in order.
pub open spec fn address_pairs(entries: Seq<GeoEntry>, addresses: Seq<Option<Vec<u8>>>) -> (
    Seq<GeoEntry>,
    Seq<Option<Vec<u8>>>,
)
    decreases entries.len(),
{
    if entries.len() == 0 {
        (Seq::empty(), Seq::empty())
    } else {
        let rest = address_pairs(entries.drop_last(), addresses);
        match entries.last() {
            GeoEntry::Domain(_) => rest,
            GeoEntry::Ip(_) => (
                rest.0.push(entries.last()),
                rest.1.push(addresses[entries.len() - 1]),
            ),
        }
    }
}

/// Domain entries never change a geoip outcome: the networks (or the
/// error) of `entries` are those of its address entries alone, each with
/// its parsed address.
pub proof fn law_geoip_ignores_all_domains(entries: Seq<GeoEntry>, addresses: Seq<Option<Vec<u8>>>)
    ensures
        address_pairs(entries, addresses).0.len() == address_pairs(entries, addresses).1.len(),
        forall|i: int|
            0 <= i < address_pairs(entries, addresses).0.len() ==> (
            #[trigger] address_pairs(entries, addresses).0[i]) is Ip,
        cidrs_of(entries, addresses) == cidrs_of(
            address_pairs(entries, addresses).0,
            address_pairs(entries, addresses).1,
        ),
    decreases entries.len(),
{
    if entries.len() > 0 {
        let prev = entries.drop_last();
        law_geoip_ignores_all_domains(prev, addresses);
        let rest = address_pairs(prev, addresses);
        match entries.last() {
            GeoEntry::Domain(_) => {},
            GeoEntry::Ip(_) => {
                let pairs = address_pairs(entries, addresses);
                assert(pairs.0.drop_last() == rest.0);
                assert(pairs.0.last() == entries.last());
                assert forall|i: int| 0 <= i < rest.0.len() implies pairs.1[i] == rest.1[i] by {}
                lemma_cidrs_same_addresses(rest.0, pairs.1, rest.1);
                assert(pairs.1[pairs.0.len() - 1] == addresses[entries.len() - 1]);
                assert forall|i: int| 0 <= i < pairs.0.len() implies (#[trigger] pairs.0[i]) is Ip by {
                    if i < rest.0.len() {
                        assert(pairs.0[i] == rest.0[i]);
                    }
                }
            },
        }
    }
}

/// The domain entries of `entries`, in order.
pub open spec fn domain_entries_of(entries: Seq<GeoEntry>) -> Seq<GeoEntry>
    decreases entries.len(),
{
    if entries.len() == 0 {
        Seq::empty()
    } else {
        let rest = domain_entries_of(entries.drop_last());
        match entries.last() {
            GeoEntry::Domain(_) => rest.push(entries.last()),
            GeoEntry::Ip(_) => rest,
        }
    }
}

/// Address entries never change a geosite file: the file of `entries` is
/// that of its domain entries alone.
pub proof fn law_geosite_ignores_all_addresses(tag: Seq<char>, entries: Seq<GeoEntry>)
    ensures
        geosite_file(uppercase(tag), domains_of(entries)) == geosite_file(
            uppercase(tag),
            domains_of(domain_entries_of(entries)),
        ),
{
    lemma_domains_of_filtered(entries);
}

proof fn lemma_domains_of_filtered(entries: Seq<GeoEntry>)
    ensures
        domains_of(entries) == domains_of(domain_entries_of(entries)),
    decreases entries.len(),
{
    if entries.len() > 0 {
        let prev = entries.drop_last();
        lemma_domains_of_filtered(prev);
        match entries.last() {
            GeoEntry::Domain(_) => {
                let f = domain_entries_of(entries);
                assert(f.drop_last() == domain_entries_of(prev));
                assert(f.last() == entries.last());
            },
            GeoEntry::Ip(_) => {},
        }
    }
}

/// Tags that upper-case alike give the same geoip file.
pub proof fn law_geoip_tag_case(t1: Seq<char>, t2: Seq<char>, cidrs: Seq<(Seq<u8>, u32)>)
    requires
        uppercase(t1) == uppercase(t2),
    ensures
        geoip_file(uppercase(t1), cidrs) == geoip_file(uppercase(t2), cidrs),
{
}

/// Every domain record of a geosite file has the type "domain and all its
/// subdomains" (2): the record is the key of field 1 as a varint (0x08),
/// the type 2, then the value, whatever the domain text is.
pub proof fn law_domain_records_cover_subdomains(value: Seq<char>)
    ensures
        domain_message(value) == seq![0x08u8, 0x02u8] + string_field(2, value),
{
    assert(varint(8) == seq![8u8]);
    assert(varint(2) == seq![2u8]);
    assert(seq![8u8] + seq![2u8] == seq![0x08u8, 0x02u8]);
}

/// An entry written as an address, a `/` and a decimal prefix length that
/// fits in a `u32` denotes that address with that prefix length.
pub proof fn law_written_prefix_is_kept(a: Seq<char>, n: u32)
    requires
        !a.contains('/'),
    ensures
        address_and_prefix(a + "/"@ + decimal(n as nat)) == Some((a, n)),
{
    reveal_strlit("/");
    let d = decimal(n as nat);
    let raw = a + "/"@ + d;
    let k = a.len() as int;
    assert(is_first_index(raw, '/', k)) by {
        assert(raw[k] == '/');
        assert forall|j: int| 0 <= j < k implies raw[j] != '/' by {
            assert(raw[j] == a[j]);
        }
    }
    lemma_first_index_unique(raw, '/', k);
    assert(raw.take(k) == a);
    assert(raw.skip(k + 1) == d);
    lemma_parse_decimal(n as nat, 0xffff_ffff);
}

/// An address written without a prefix length is a host route: an IPv4
/// address (no `:`) is the same as written with "/32", an IPv6 one the
/// same as written with "/128".
pub proof fn law_bare_address_is_a_host_route(a: Seq<char>)
    requires
        !a.contains('/'),
    ensures
        !a.contains(':') ==> address_and_prefix(a) == address_and_prefix(a + "/32"@),
        a.contains(':') ==> address_and_prefix(a) == address_and_prefix(a + "/128"@),
{
    reveal_strlit("/");
    reveal_strlit("/32");
    reveal_strlit("/128");
    assert(decimal(32) == seq!['3', '2']) by {
        reveal_with_fuel(decimal, 2);
    }
    assert(decimal(128) == seq!['1', '2', '8']) by {
        reveal_with_fuel(decimal, 3);
    }
    assert("/32"@ == "/"@ + decimal(32));
    assert("/128"@ == "/"@ + decimal(128));
    law_written_prefix_is_kept(a, 32);
    law_written_prefix_is_kept(a, 128);
    assert(a + "/32"@ == a + "/"@ + decimal(32));
    assert(a + "/128"@ == a + "/"@ + decimal(128));
    if !a.contains('/') {
        assert(first_index_of(a, '/') is None);
    }
}

} // verus!
