//! WireGuard helpers: the public key of a server's private key, and the
//! next free peer address in the /24 network of the existing peers
//! (10.0.0.0/24 when there are none).

use vstd::prelude::*;
use vstd::string::*;
use std::collections::HashSet;
use base64::Engine;
use crate::text::{
    before_slash, decimal, is_digit, is_first_index, lemma_decimal_digits, lemma_first_index_unique,
    lemma_parse_decimal, parse_u8, parse_unsigned, push_decimal, text_before_slash,
};

verus! {

broadcast use vstd::std_specs::hash::group_hash_axioms;

/// What the standard base64 engine (standard alphabet, padded) makes of
/// `text`: the decoded bytes, or the `Display` text of the error it rejects
/// the text with.
pub uninterp spec fn base64_decoding(text: Seq<char>) -> Result<Seq<u8>, Seq<char>>;

/// What the standard base64 engine (standard alphabet, padded) encodes
/// `bytes` to.
pub uninterp spec fn base64_encoded(bytes: Seq<u8>) -> Seq<char>;

/// The X25519 public key (the clamped secret times the base point) of a
/// 32-byte secret key.
pub uninterp spec fn x25519_public_of(secret: Seq<u8>) -> Seq<u8>;

/// `base64::engine::general_purpose::STANDARD.decode`, with a decoding
/// error turned into its `Display` text.  Claimed: the outcome depends on
/// the text alone (`base64_decoding`).
#[verifier::external_body]
fn decode_base64(text: &str) -> (r: Result<Vec<u8>, String>)
    ensures
        match base64_decoding(text@) {
            Ok(b) => r matches Ok(v) && v@ == b,
            Err(m) => r matches Err(e) && e@ == m,
        },
{
    match base64::engine::general_purpose::STANDARD.decode(text) {
        Ok(v) => Ok(v),
        Err(e) => Err(format!("{}", e)),
    }
}

/// `base64::engine::general_purpose::STANDARD.encode` of a 32-byte key.
/// Claimed: the result depends on the bytes alone (`base64_encoded`), and
/// as padded base64 of 32 bytes it is 44 characters long (four for each
/// started group of three bytes).
#[verifier::external_body]
fn encode_base64(bytes: &[u8]) -> (r: String)
    requires
        bytes@.len() == 32,
    ensures
        r@ == base64_encoded(bytes@),
        r@.len() == 44,
{
    base64::engine::general_purpose::STANDARD.encode(bytes)
}

/// `x25519_dalek::PublicKey::from(&StaticSecret::from(secret))`, as bytes.
/// Claimed: the key depends on the secret alone (`x25519_public_of`) and
/// is 32 bytes long.
#[verifier::external_body]
fn x25519_public_key(secret: &[u8]) -> (r: Vec<u8>)
    requires
        secret@.len() == 32,
    ensures
        r@ == x25519_public_of(secret@),
        r@.len() == 32,
{
    let bytes: [u8; 32] = secret.try_into().unwrap();
    let key = x25519_dalek::StaticSecret::from(bytes);
    x25519_dalek::PublicKey::from(&key).as_bytes().to_vec()
}

/// Prefix of the error that a secret which is not base64 gives.
pub open spec fn decode_error_prefix() -> Seq<char> {
    "base64 decode error: "@
}

/// Error that a secret of the wrong length gives.
pub open spec fn wrong_length_error() -> Seq<char> {
    "secret key must be 32 bytes"@
}

/// The WireGuard public key text of the base64 private key `secret`, or
/// the error text: the decoder's message after "base64 decode error: ", or
/// the wrong-length error unless the secret decodes to 32 bytes.
pub open spec fn public_key_text(secret: Seq<char>) -> Result<Seq<char>, Seq<char>> {
    match base64_decoding(secret) {
        Err(msg) => Err(decode_error_prefix() + msg),
        Ok(b) => if b.len() == 32 {
            Ok(base64_encoded(x25519_public_of(b)))
        } else {
            Err(wrong_length_error())
        },
    }
}

/// The base64 public key of a decoded secret key: an error unless the
/// secret is exactly 32 bytes.
pub fn public_key_from_secret_bytes(secret: &[u8]) -> (r: Result<String, String>)
    ensures
        secret@.len() == 32 ==> (r matches Ok(k) && k@ == base64_encoded(x25519_public_of(secret@))
            && k@.len() == 44),
        secret@.len() != 32 ==> (r matches Err(m) && m@ == wrong_length_error()),
{
    if secret.len() != 32 {
        return Err(String::from_str("secret key must be 32 bytes"));
    }
    let public = x25519_public_key(secret);
    Ok(encode_base64(public.as_slice()))
}

/// The WireGuard public key (base64, 44 characters) of a base64 private
/// key: the X25519 public key of the decoded secret.  Fails when the text
/// is not base64 ("base64 decode error: " and the decoder's message) or
/// does not decode to 32 bytes.
pub fn public_key_from_secret(secret_b64: &str) -> (r: Result<String, String>)
    ensures
        match public_key_text(secret_b64@) {
            Ok(k) => r matches Ok(s) && s@ == k && s@.len() == 44,
            Err(m) => r matches Err(e) && e@ == m,
        },
{
    match decode_base64(secret_b64) {
        Ok(bytes) => public_key_from_secret_bytes(bytes.as_slice()),
        Err(text) => {
            let mut m = String::from_str("base64 decode error: ");
            m.append(text.as_str());
            Err(m)
        },
    }
}

/// Splitting `s` at every `sep`, left to right: the pieces completed so
/// far and the piece under way.
pub open spec fn split_state(s: Seq<char>, sep: char) -> (Seq<Seq<char>>, Seq<char>)
    decreases s.len(),
{
    if s.len() == 0 {
        (Seq::empty(), Seq::empty())
    } else {
        let (done, cur) = split_state(s.drop_last(), sep);
        if s.last() == sep {
            (done.push(cur), Seq::empty())
        } else {
            (done, cur.push(s.last()))
        }
    }
}

/// The pieces of `s` between occurrences of `sep` (as `str::split`).
pub open spec fn split_pieces(s: Seq<char>, sep: char) -> Seq<Seq<char>> {
    split_state(s, sep).0.push(split_state(s, sep).1)
}

/// The pieces that parse as a `u8`, parsed, in order; the others are
/// skipped.
pub open spec fn parsed_octets(pieces: Seq<Seq<char>>) -> Seq<u8>
    decreases pieces.len(),
{
    if pieces.len() == 0 {
        Seq::empty()
    } else {
        let rest = parsed_octets(pieces.drop_last());
        match parse_unsigned(pieces.last(), 0xff) {
            Some(v) => rest.push(v as u8),
            None => rest,
        }
    }
}

/// The big-endian value of four octets.
pub open spec fn address_value(o: Seq<u8>) -> u32 {
    (o[0] as nat * 16777216 + o[1] as nat * 65536 + o[2] as nat * 256 + o[3] as nat) as u32
}

/// The IPv4 address (as a number) of an allowed-IPs entry: the dotted
/// pieces before the first `/` that parse as octets, when exactly four do.
pub open spec fn peer_address(entry: Seq<char>) -> Option<u32> {
    let octets = parsed_octets(split_pieces(before_slash(entry), '.'));
    if octets.len() == 4 {
        Some(address_value(octets))
    } else {
        None
    }
}

/// The address of the first entry of `existing` that holds one.
pub open spec fn first_address(existing: Seq<Seq<char>>) -> Option<u32>
    decreases existing.len(),
{
    if existing.len() == 0 {
        None
    } else {
        match first_address(existing.drop_last()) {
            Some(a) => Some(a),
            None => peer_address(existing.last()),
        }
    }
}

/// The network new peers get addresses in, as its `.0` address: the /24 of
/// the first entry that holds an address, else 10.0.0.0.
pub open spec fn pool_base(existing: Seq<Seq<char>>) -> u32 {
    match first_address(existing) {
        Some(a) => (a - a % 256) as u32,
        None => 0x0A00_0000,
    }
}

/// The address (as a number) of host `h` of the network `base`.
pub open spec fn pool_address(base: u32, h: nat) -> u32 {
    (base + h) as u32
}

/// `s`, a `.`, and `n` in decimal.
pub open spec fn dot_then(s: Seq<char>, n: nat) -> Seq<char> {
    s.push('.') + decimal(n)
}

/// The dotted-quad text of an IPv4 address.
pub open spec fn dotted_quad(a: u32) -> Seq<char> {
    dot_then(
        dot_then(
            dot_then(decimal((a / 16777216) as nat), ((a / 65536) % 256) as nat),
            ((a / 256) % 256) as nat,
        ),
        (a % 256) as nat,
    )
}

/// The text of host `h` of the network `base`.
pub open spec fn pool_text(base: u32, h: nat) -> Seq<char> {
    dotted_quad(pool_address(base, h))
}

/// The text of host `h` of the network that `existing` gives.
pub open spec fn free_host_text(existing: Seq<Seq<char>>, h: nat) -> Seq<char> {
    pool_text(pool_base(existing), h)
}

/// The characters of each string.
pub open spec fn texts(v: Seq<String>) -> Seq<Seq<char>> {
    v.map_values(|s: String| s@)
}

/// Some entry of `existing` holds the address `a`.
pub open spec fn address_in_use(existing: Seq<Seq<char>>, a: u32) -> bool {
    exists|j: int| 0 <= j < existing.len() && peer_address(#[trigger] existing[j]) == Some(a)
}

/// `h` is the first host of .2 ..= .253 of the network that `existing`
/// gives whose address no entry holds.
pub open spec fn is_first_free_host(existing: Seq<Seq<char>>, h: nat) -> bool {
    let base = pool_base(existing);
    &&& 2 <= h < 254
    &&& !address_in_use(existing, pool_address(base, h))
    &&& forall|k: nat| 2 <= k < h ==> address_in_use(existing, #[trigger] pool_address(base, k))
}

/// Every host .2 ..= .253 of the network that `existing` gives is held by
/// some entry.
pub open spec fn pool_exhausted(existing: Seq<Seq<char>>) -> bool {
    forall|h: nat|
        2 <= h < 254 ==> address_in_use(existing, #[trigger] pool_address(pool_base(existing), h))
}

/// The address of an allowed-IPs entry, as `peer_address` defines it.
pub fn peer_address_of(entry: &str) -> (r: Option<u32>)
    ensures
        r == peer_address(entry@),
{
    let host = text_before_slash(entry);
    let n = host.unicode_len();
    let mut octets: Vec<u8> = Vec::new();
    let mut start: usize = 0;
    let mut i: usize = 0;
    assert(host@.take(0) == Seq::<char>::empty());
    while i < n
        invariant
            n == host@.len(),
            start <= i <= n,
            octets@ == parsed_octets(split_state(host@.take(i as int), '.').0),
            split_state(host@.take(i as int), '.').1 == host@.subrange(start as int, i as int),
        decreases n - i,
    {
        let ghost prev = host@.take(i as int);
        assert(host@.take(i + 1).drop_last() == prev);
        assert(host@.take(i + 1).last() == host@[i as int]);
        let c = host.get_char(i);
        if c == '.' {
            let piece = host.substring_char(start, i);
            let ghost done = split_state(prev, '.').0;
            assert(done.push(piece@).drop_last() == done);
            match parse_u8(piece) {
                Some(v) => octets.push(v),
                None => {},
            }
            start = i + 1;
        } else {
            assert(host@.subrange(start as int, i + 1) == host@.subrange(start as int, i as int).push(c));
        }
        i = i + 1;
    }
    assert(host@.take(n as int) == host@);
    let last = host.substring_char(start, n);
    let ghost done = split_state(host@, '.').0;
    assert(split_pieces(host@, '.').drop_last() == done);
    match parse_u8(last) {
        Some(v) => octets.push(v),
        None => {},
    }
    if octets.len() == 4 {
        let a: u32 = octets[0] as u32 * 16777216 + octets[1] as u32 * 65536 + octets[2] as u32 * 256
            + octets[3] as u32;
        Some(a)
    } else {
        None
    }
}

/// The addresses held by the entries of `existing`.
pub open spec fn used_addresses(existing: Seq<Seq<char>>) -> Set<u32> {
    Set::new(|a: u32| address_in_use(existing, a))
}

/// Builds the dotted-quad text of an address.
pub fn dotted_quad_text(a: u32) -> (r: String)
    ensures
        r@ == dotted_quad(a),
{
    proof {
        reveal_strlit(".");
    }
    let mut out = String::new();
    push_decimal(&mut out, (a / 16777216) as u64);
    let ghost s0 = out@;
    out.append(".");
    push_decimal(&mut out, ((a / 65536) % 256) as u64);
    assert(out@ == dot_then(s0, ((a / 65536) % 256) as nat));
    let ghost s1 = out@;
    out.append(".");
    push_decimal(&mut out, ((a / 256) % 256) as u64);
    assert(out@ == dot_then(s1, ((a / 256) % 256) as nat));
    let ghost s2 = out@;
    out.append(".");
    push_decimal(&mut out, (a % 256) as u64);
    assert(out@ == dot_then(s2, (a % 256) as nat));
    out
}

/// The next free peer address: the first host of .2 ..= .253, in the /24
/// network of the first allowed-IPs entry of `existing_ips` that holds an
/// address (10.0.0.0/24 when none does), that no entry holds, as dotted-quad
/// text; `None` when every such host is taken.
pub fn next_peer_ip(existing_ips: &[String]) -> (r: Option<String>)
    ensures
        match r {
            Some(ip) => exists|h: nat|
                is_first_free_host(texts(existing_ips@), h) && ip@ == free_host_text(
                    texts(existing_ips@),
                    h,
                ),
            None => pool_exhausted(texts(existing_ips@)),
        },
{
    let ghost all = texts(existing_ips@);
    let mut used: HashSet<u32> = HashSet::new();
    let mut first: Option<u32> = None;
    let n = existing_ips.len();
    let mut j: usize = 0;
    assert(used@ =~= used_addresses(all.take(0)));
    assert(all.take(0) == Seq::<Seq<char>>::empty());
    while j < n
        invariant
            n == existing_ips@.len(),
            all == texts(existing_ips@),
            j <= n,
            used@ == used_addresses(all.take(j as int)),
            first == first_address(all.take(j as int)),
        decreases n - j,
    {
        let ghost prev = all.take(j as int);
        let ghost next = all.take(j + 1);
        assert(next == prev.push(all[j as int]));
        assert(next.drop_last() == prev);
        assert(all[j as int] == existing_ips@[j as int]@);
        let a = peer_address_of(existing_ips[j].as_str());
        match a {
            Some(addr) => {
                used.insert(addr);
                if first.is_none() {
                    first = Some(addr);
                }
                assert forall|x: u32| used@.contains(x) <==> address_in_use(next, x) by {
                    if address_in_use(next, x) {
                        let w = choose|w: int|
                            0 <= w < next.len() && peer_address(#[trigger] next[w]) == Some(x);
                        if w < j {
                            assert(prev[w] == next[w]);
                        }
                    }
                    if address_in_use(prev, x) {
                        let w = choose|w: int|
                            0 <= w < prev.len() && peer_address(#[trigger] prev[w]) == Some(x);
                        assert(prev[w] == next[w]);
                    }
                    if x == addr {
                        assert(peer_address(next[j as int]) == Some(x));
                    }
                }
            },
            None => {
                assert forall|x: u32| used@.contains(x) <==> address_in_use(next, x) by {
                    if address_in_use(next, x) {
                        let w = choose|w: int|
                            0 <= w < next.len() && peer_address(#[trigger] next[w]) == Some(x);
                        if w < j {
                            assert(prev[w] == next[w]);
                        }
                    }
                    if address_in_use(prev, x) {
                        let w = choose|w: int|
                            0 <= w < prev.len() && peer_address(#[trigger] prev[w]) == Some(x);
                        assert(prev[w] == next[w]);
                    }
                }
            },
        }
        assert(used@ =~= used_addresses(next));
        j = j + 1;
    }
    assert(all.take(n as int) == all);
    let base: u32 = match first {
        Some(a) => a - a % 256,
        None => 0x0A00_0000,
    };
    assert(base == pool_base(all));
    assert(base % 256 == 0 && base <= 0xFFFF_FF00) by {
        match first {
            Some(a) => {
                assert((a - a % 256) % 256 == 0 && a - a % 256 <= 0xFFFF_FF00) by (bit_vector);
            },
            None => {},
        }
    }
    let mut h: u32 = 2;
    while h < 254
        invariant
            2 <= h <= 254,
            used@ == used_addresses(all),
            all == texts(existing_ips@),
            base == pool_base(all),
            base <= 0xFFFF_FF00,
            forall|k: nat| 2 <= k < h ==> address_in_use(all, #[trigger] pool_address(base, k)),
        decreases 254 - h,
    {
        let candidate: u32 = base + h;
        assert(candidate == pool_address(base, h as nat));
        if !used.contains(&candidate) {
            let ip = dotted_quad_text(candidate);
            assert(is_first_free_host(all, h as nat));
            return Some(ip);
        }
        assert(address_in_use(all, pool_address(base, h as nat)));
        h = h + 1;
    }
    None
}

proof fn lemma_split_without_sep(prefix: Seq<char>, s: Seq<char>, sep: char)
    requires
        forall|i: int| 0 <= i < s.len() ==> s[i] != sep,
    ensures
        split_state(prefix + s, sep) == (split_state(prefix, sep).0, split_state(prefix, sep).1 + s),
    decreases s.len(),
{
    if s.len() == 0 {
        assert(prefix + s == prefix);
        assert(split_state(prefix, sep).1 + s == split_state(prefix, sep).1);
    } else {
        lemma_split_without_sep(prefix, s.drop_last(), sep);
        assert((prefix + s).drop_last() == prefix + s.drop_last());
        assert((prefix + s).last() == s.last());
        assert((split_state(prefix, sep).1 + s.drop_last()).push(s.last()) == split_state(prefix, sep).1
            + s);
    }
}

/// Only ASCII digits and dots.
pub open spec fn digits_and_dots(s: Seq<char>) -> bool {
    forall|i: int| 0 <= i < s.len() ==> is_digit(#[trigger] s[i]) || s[i] == '.'
}

proof fn lemma_decimal_no_dot(n: nat)
    ensures
        digits_and_dots(decimal(n)),
        forall|i: int| 0 <= i < decimal(n).len() ==> #[trigger] decimal(n)[i] != '.',
{
    lemma_decimal_digits(n);
    assert forall|i: int| 0 <= i < decimal(n).len() implies #[trigger] decimal(n)[i] != '.' by {
        assert(is_digit(decimal(n)[i]));
    }
}

proof fn lemma_dot_then_chars(s: Seq<char>, n: nat)
    requires
        digits_and_dots(s),
    ensures
        digits_and_dots(dot_then(s, n)),
{
    lemma_decimal_no_dot(n);
    let t = dot_then(s, n);
    assert forall|i: int| 0 <= i < t.len() implies is_digit(#[trigger] t[i]) || t[i] == '.' by {
        if i < s.len() {
            assert(t[i] == s[i]);
        } else if i > s.len() {
            assert(t[i] == decimal(n)[i - s.len() - 1]);
        }
    }
}

/// Splitting at `.` a text that `dot_then` extends: the pieces so far, then
/// the number.
proof fn lemma_split_dot_then(s: Seq<char>, n: nat)
    ensures
        split_state(dot_then(s, n), '.') == (
            split_state(s, '.').0.push(split_state(s, '.').1),
            decimal(n),
        ),
{
    let p = s.push('.');
    assert(p.drop_last() == s);
    lemma_decimal_no_dot(n);
    lemma_split_without_sep(p, decimal(n), '.');
    assert(Seq::<char>::empty() + decimal(n) == decimal(n));
}

/// The allowed-IPs entry "a/32" holds the address `a`.
pub proof fn lemma_dotted_quad_address(a: u32)
    ensures
        peer_address(dotted_quad(a) + "/32"@) == Some(a),
{
    reveal_strlit("/32");
    let o0: nat = (a / 16777216) as nat;
    let o1: nat = ((a / 65536) % 256) as nat;
    let o2: nat = ((a / 256) % 256) as nat;
    let o3: nat = (a % 256) as nat;
    assert(a / 16777216 <= 255) by (bit_vector);
    let d0 = decimal(o0);
    let d1 = decimal(o1);
    let d2 = decimal(o2);
    let d3 = decimal(o3);
    let t1 = dot_then(d0, o1);
    let t2 = dot_then(t1, o2);
    let t = dot_then(t2, o3);
    assert(t == dotted_quad(a));
    // the pieces between dots
    lemma_decimal_no_dot(o0);
    lemma_split_without_sep(Seq::<char>::empty(), d0, '.');
    assert(Seq::<char>::empty() + d0 == d0);
    assert(split_state(d0, '.') == (Seq::<Seq<char>>::empty(), d0));
    lemma_split_dot_then(d0, o1);
    lemma_split_dot_then(t1, o2);
    lemma_split_dot_then(t2, o3);
    assert(Seq::<Seq<char>>::empty().push(d0) == seq![d0]);
    assert(seq![d0].push(d1) == seq![d0, d1]);
    assert(seq![d0, d1].push(d2) == seq![d0, d1, d2]);
    let pieces = seq![d0, d1, d2, d3];
    assert(split_pieces(t, '.') == pieces);
    // no `/` before the suffix
    lemma_dot_then_chars(d0, o1);
    lemma_dot_then_chars(t1, o2);
    lemma_dot_then_chars(t2, o3);
    let e = t + "/32"@;
    let k: int = t.len() as int;
    assert(is_first_index(e, '/', k)) by {
        assert(e[k] == '/');
        assert forall|j: int| 0 <= j < k implies e[j] != '/' by {
            assert(e[j] == t[j]);
            assert(is_digit(t[j]) || t[j] == '.');
        }
    }
    lemma_first_index_unique(e, '/', k);
    assert(e.take(k) == t);
    assert(before_slash(e) == t);
    // each piece parses as its octet
    lemma_parse_decimal(o0, 255);
    lemma_parse_decimal(o1, 255);
    lemma_parse_decimal(o2, 255);
    lemma_parse_decimal(o3, 255);
    let p1 = seq![d0];
    let p2 = seq![d0, d1];
    let p3 = seq![d0, d1, d2];
    assert(parsed_octets(Seq::<Seq<char>>::empty()) == Seq::<u8>::empty());
    assert(p1.drop_last() == Seq::<Seq<char>>::empty());
    assert(p2.drop_last() == p1);
    assert(p3.drop_last() == p2);
    assert(pieces.drop_last() == p3);
    assert(parsed_octets(p1) == seq![o0 as u8]);
    assert(parsed_octets(p2) == seq![o0 as u8, o1 as u8]);
    assert(parsed_octets(p3) == seq![o0 as u8, o1 as u8, o2 as u8]);
    let octets = parsed_octets(pieces);
    assert(octets == seq![o0 as u8, o1 as u8, o2 as u8, o3 as u8]);
    assert((a / 16777216) * 16777216 + ((a / 65536) % 256) * 65536 + ((a / 256) % 256) * 256 + a
        % 256 == a) by (bit_vector);
    assert(address_value(octets) == a);
}

proof fn lemma_first_address_kept(a: Seq<Seq<char>>, b: Seq<Seq<char>>)
    requires
        first_address(a) is Some,
    ensures
        first_address(a + b) == first_address(a),
    decreases b.len(),
{
    if b.len() == 0 {
        assert(a + b == a);
    } else {
        lemma_first_address_kept(a, b.drop_last());
        assert((a + b).drop_last() == a + b.drop_last());
    }
}

/// Once an entry holding an address has set the network, further entries
/// keep it.
pub proof fn law_pool_base_kept(a: Seq<Seq<char>>, b: Seq<Seq<char>>)
    requires
        first_address(a) is Some,
    ensures
        pool_base(a + b) == pool_base(a),
{
    lemma_first_address_kept(a, b);
}

/// Once the address handed out for host `h` is added as a peer entry
/// ("address/32"), the network stays the same and host `h` is taken.
pub proof fn law_assigned_address_taken(existing: Seq<Seq<char>>, entry: Seq<char>, h: nat)
    requires
        2 <= h < 254,
        entry == free_host_text(existing, h) + "/32"@,
    ensures
        pool_base(existing.push(entry)) == pool_base(existing),
        address_in_use(existing.push(entry), pool_address(pool_base(existing), h)),
{
    let base = pool_base(existing);
    let all = existing.push(entry);
    lemma_dotted_quad_address(pool_address(base, h));
    assert(all.drop_last() == existing);
    assert(all.last() == entry);
    assert(all[existing.len() as int] == entry);
    if first_address(existing) is None {
        let x: u32 = pool_address(base, h);
        assert(x == 0x0A00_0000 + h);
        let hh: u32 = h as u32;
        assert(x == 0x0A00_0000 + hh);
        assert(x - x % 256 == 0x0A00_0000) by (bit_vector)
            requires
                x == 0x0A00_0000 + hh,
                hh < 254,
        ;
    }
}

/// Allocation never repeats: after the peer of the allocated host is added,
/// the next allocation is a later host.
pub proof fn law_next_allocation_is_later(existing: Seq<Seq<char>>, entry: Seq<char>, h: nat, next: nat)
    requires
        is_first_free_host(existing, h),
        entry == free_host_text(existing, h) + "/32"@,
        is_first_free_host(existing.push(entry), next),
    ensures
        h < next,
{
    law_assigned_address_taken(existing, entry, h);
    let base = pool_base(existing);
    let all = existing.push(entry);
    if next < h {
        assert(address_in_use(existing, pool_address(base, next)));
        let w = choose|w: int|
            0 <= w < existing.len() && peer_address(#[trigger] existing[w]) == Some(
                pool_address(base, next),
            );
        assert(all[w] == existing[w]);
        assert(address_in_use(all, pool_address(base, next)));
    }
}

proof fn lemma_in_use_extends(a: Seq<Seq<char>>, b: Seq<Seq<char>>, x: u32)
    requires
        address_in_use(a, x),
    ensures
        address_in_use(a + b, x),
{
    let w = choose|w: int| 0 <= w < a.len() && peer_address(#[trigger] a[w]) == Some(x);
    assert((a + b)[w] == a[w]);
}

/// More entries never give a lower next address, as long as they leave the
/// network unchanged (as they do once an entry holding an address has set
/// it, `law_pool_base_kept`).
pub proof fn law_more_entries_never_lower(a: Seq<Seq<char>>, b: Seq<Seq<char>>, x: nat, y: nat)
    requires
        pool_base(a + b) == pool_base(a),
        is_first_free_host(a, x),
        is_first_free_host(a + b, y),
    ensures
        x <= y,
{
    if y < x {
        lemma_in_use_extends(a, b, pool_address(pool_base(a), y));
    }
}

/// A full network stays full when entries are added that leave the network
/// unchanged.
pub proof fn law_exhausted_pool_stays_exhausted(a: Seq<Seq<char>>, b: Seq<Seq<char>>)
    requires
        pool_base(a + b) == pool_base(a),
        pool_exhausted(a),
    ensures
        pool_exhausted(a + b),
{
    assert forall|h: nat| 2 <= h < 254 implies address_in_use(
        a + b,
        #[trigger] pool_address(pool_base(a + b), h),
    ) by {
        assert(address_in_use(a, pool_address(pool_base(a), h)));
        lemma_in_use_extends(a, b, pool_address(pool_base(a), h));
    }
}

proof fn lemma_first_address_in_use(s: Seq<Seq<char>>)
    ensures
        first_address(s) matches Some(x) ==> address_in_use(s, x),
        first_address(s) is None ==> forall|x: u32| !address_in_use(s, x),
    decreases s.len(),
{
    if s.len() > 0 {
        let p = s.drop_last();
        lemma_first_address_in_use(p);
        match first_address(p) {
            Some(x) => {
                let w = choose|w: int| 0 <= w < p.len() && peer_address(#[trigger] p[w]) == Some(x);
                assert(s[w] == p[w]);
            },
            None => {
                let last = s.len() - 1;
                assert(s[last] == s.last());
                if first_address(s) is None {
                    assert forall|x: u32| !address_in_use(s, x) by {
                        if address_in_use(s, x) {
                            let w = choose|w: int|
                                0 <= w < s.len() && peer_address(#[trigger] s[w]) == Some(x);
                            if w < p.len() {
                                assert(p[w] == s[w]);
                                assert(address_in_use(p, x));
                            }
                        }
                    }
                }
            },
        }
    }
}

/// The next address depends only on which addresses the entries hold, not
/// on their order, repetitions or other entries, as long as the held
/// addresses lie in one /24 network (`net`, as its `.0` address): lists
/// holding the same addresses give the same network, the same first free
/// host, the same text for it, and are full alike.
pub proof fn law_allocation_ignores_order(a: Seq<Seq<char>>, b: Seq<Seq<char>>, net: u32)
    requires
        forall|x: u32|
            #![trigger address_in_use(a, x)]
            #![trigger address_in_use(b, x)]
            address_in_use(a, x) <==> address_in_use(b, x),
        forall|x: u32| #[trigger] address_in_use(a, x) ==> x - x % 256 == net,
    ensures
        pool_base(a) == pool_base(b),
        forall|h: nat| is_first_free_host(a, h) == is_first_free_host(b, h),
        pool_exhausted(a) == pool_exhausted(b),
        forall|h: nat| free_host_text(a, h) == free_host_text(b, h),
{
    lemma_first_address_in_use(a);
    lemma_first_address_in_use(b);
    match first_address(a) {
        Some(x) => {
            assert(address_in_use(b, x));
            let y = first_address(b)->0;
            assert(address_in_use(b, y));
            assert(address_in_use(a, y));
        },
        None => {
            if first_address(b) is Some {
                let y = first_address(b)->0;
                assert(address_in_use(b, y));
                assert(address_in_use(a, y));
            }
        },
    }
    let base = pool_base(a);
    assert forall|h: nat| is_first_free_host(a, h) == is_first_free_host(b, h) by {
        assert(address_in_use(a, pool_address(base, h)) == address_in_use(b, pool_address(base, h)));
        if is_first_free_host(a, h) {
            assert forall|k: nat| 2 <= k < h implies address_in_use(
                b,
                #[trigger] pool_address(base, k),
            ) by {
                assert(address_in_use(a, pool_address(base, k)));
            }
        }
        if is_first_free_host(b, h) {
            assert forall|k: nat| 2 <= k < h implies address_in_use(
                a,
                #[trigger] pool_address(base, k),
            ) by {
                assert(address_in_use(b, pool_address(base, k)));
            }
        }
    }
    if pool_exhausted(a) {
        assert forall|h: nat| 2 <= h < 254 implies address_in_use(
            b,
            #[trigger] pool_address(pool_base(b), h),
        ) by {
            assert(address_in_use(a, pool_address(base, h)));
        }
    }
    if pool_exhausted(b) {
        assert forall|h: nat| 2 <= h < 254 implies address_in_use(
            a,
            #[trigger] pool_address(pool_base(a), h),
        ) by {
            assert(address_in_use(b, pool_address(base, h)));
        }
    }
}

/// There is at most one first free host: the next address is determined.
pub proof fn law_first_free_host_unique(existing: Seq<Seq<char>>, h1: nat, h2: nat)
    requires
        is_first_free_host(existing, h1),
        is_first_free_host(existing, h2),
    ensures
        h1 == h2,
{
    let base = pool_base(existing);
    if h1 < h2 {
        assert(address_in_use(existing, pool_address(base, h1)));
    } else if h2 < h1 {
        assert(address_in_use(existing, pool_address(base, h2)));
    }
}

/// When every address the entries hold lies in one /24 network `net`, and
/// `a` already holds one or `net` is the default 10.0.0.0/24, adding `b`
/// keeps the network.
pub proof fn law_one_network_keeps_base(a: Seq<Seq<char>>, b: Seq<Seq<char>>, net: u32)
    requires
        forall|x: u32| #[trigger] address_in_use(a + b, x) ==> x - x % 256 == net,
        first_address(a) is Some || net == 0x0A00_0000,
    ensures
        pool_base(a + b) == pool_base(a),
{
    if first_address(a) is Some {
        law_pool_base_kept(a, b);
    } else {
        lemma_first_address_in_use(a + b);
        if first_address(a + b) is Some {
            let y = first_address(a + b)->0;
            assert(address_in_use(a + b, y));
        }
    }
}

/// Within one /24 network, more entries never give a lower next address.
pub proof fn law_more_entries_never_lower_in_one_network(
    a: Seq<Seq<char>>,
    b: Seq<Seq<char>>,
    net: u32,
    x: nat,
    y: nat,
)
    requires
        forall|v: u32| #[trigger] address_in_use(a + b, v) ==> v - v % 256 == net,
        first_address(a) is Some || net == 0x0A00_0000,
        is_first_free_host(a, x),
        is_first_free_host(a + b, y),
    ensures
        x <= y,
{
    law_one_network_keeps_base(a, b, net);
    law_more_entries_never_lower(a, b, x, y);
}

/// Within one /24 network, a full pool stays full when entries are added.
pub proof fn law_exhausted_pool_stays_exhausted_in_one_network(
    a: Seq<Seq<char>>,
    b: Seq<Seq<char>>,
    net: u32,
)
    requires
        forall|v: u32| #[trigger] address_in_use(a + b, v) ==> v - v % 256 == net,
        first_address(a) is Some || net == 0x0A00_0000,
        pool_exhausted(a),
    ensures
        pool_exhausted(a + b),
{
    law_one_network_keeps_base(a, b, net);
    law_exhausted_pool_stays_exhausted(a, b);
}

} // verus!
