//! RouterOS scripts: the init script a MikroTik runs once to join the VPN,
//! and the route list it pulls on schedule.

use vstd::prelude::*;
use vstd::string::*;
use crate::models::Route;
use crate::text::{
    before_slash, occurs_at, text_before_slash, text_eq, trim_end_char, trim_end_char_of,
    trim_start_text, trim_start_text_of,
};
use crate::wireguard::next_peer_ip;

verus! {

/// What the init script of a router is rendered with.
#[derive(Debug, Clone, PartialEq, Eq)]
pub struct ScriptParams {
    pub endpoint_address: String,
    pub endpoint_port: u16,
    pub server_public_key: String,
    pub assigned_ip: String,
    pub mikrotik_uuid: String,
    pub lists_base_url: String,
}

/// Why a script could not be rendered.
#[derive(Debug, Clone, PartialEq, Eq)]
pub enum ScriptError {
    /// The template engine rejected the template or failed while rendering.
    Render,
}

#[verifier::external_type_specification]
#[verifier::external_body]
pub struct ExTemplateError(minijinja::Error);

/// What the template engine renders `source` to with the variables `uuid`,
/// `endpoint_address`, `endpoint_port`, `server_public_key`, `assigned_ip`
/// and `lists_base_url` set to the given values; `None` when it fails.
pub uninterp spec fn rendered_init_script(
    source: Seq<char>,
    uuid: Seq<char>,
    endpoint_address: Seq<char>,
    endpoint_port: u16,
    server_public_key: Seq<char>,
    assigned_ip: Seq<char>,
    lists_base_url: Seq<char>,
) -> Option<Seq<char>>;

/// `minijinja::Environment::render_str` on a fresh environment, with the
/// six script variables as the context.  Claimed: the outcome depends on
/// the template and the values alone (`rendered_init_script`).
#[verifier::external_body]
fn render_init_template(
    source: &str,
    uuid: &str,
    endpoint_address: &str,
    endpoint_port: u16,
    server_public_key: &str,
    assigned_ip: &str,
    lists_base_url: &str,
) -> (r: Result<String, minijinja::Error>)
    ensures
        match rendered_init_script(
            source@,
            uuid@,
            endpoint_address@,
            endpoint_port,
            server_public_key@,
            assigned_ip@,
            lists_base_url@,
        ) {
            Some(t) => r matches Ok(s) && s@ == t,
            None => r is Err,
        },
{
    let mut ctx = std::collections::BTreeMap::new();
    ctx.insert("uuid", minijinja::Value::from(uuid));
    ctx.insert("endpoint_address", minijinja::Value::from(endpoint_address));
    ctx.insert("endpoint_port", minijinja::Value::from(endpoint_port));
    ctx.insert("server_public_key", minijinja::Value::from(server_public_key));
    ctx.insert("assigned_ip", minijinja::Value::from(assigned_ip));
    ctx.insert("lists_base_url", minijinja::Value::from(lists_base_url));
    minijinja::Environment::new().render_str(source, ctx)
}

/// Renders a router's init script from the template `template` with the
/// parameters `p` (the variable `uuid` is the router's UUID).
pub fn generate_init_script(template: &str, p: &ScriptParams) -> (r: Result<String, ScriptError>)
    ensures
        match rendered_init_script(
            template@,
            p.mikrotik_uuid@,
            p.endpoint_address@,
            p.endpoint_port,
            p.server_public_key@,
            p.assigned_ip@,
            p.lists_base_url@,
        ) {
            Some(t) => r matches Ok(s) && s@ == t,
            None => r matches Err(ScriptError::Render),
        },
{
    match render_init_template(
        template,
        p.mikrotik_uuid.as_str(),
        p.endpoint_address.as_str(),
        p.endpoint_port,
        p.server_public_key.as_str(),
        p.assigned_ip.as_str(),
        p.lists_base_url.as_str(),
    ) {
        Ok(s) => Ok(s),
        Err(_) => Err(ScriptError::Render),
    }
}

/// The WireGuard endpoint host of a server address: the address without
/// trailing `/`, without leading "https://" then "http://" (each repeated),
/// cut at the first remaining `/`.
pub open spec fn endpoint_host_of(address: Seq<char>) -> Seq<char> {
    before_slash(
        trim_start_text(trim_start_text(trim_end_char(address, '/'), "https://"@), "http://"@),
    )
}

/// The host part of a server address, for the WireGuard endpoint.
pub fn endpoint_host(address: &str) -> (r: String)
    ensures
        r@ == endpoint_host_of(address@),
{
    proof {
        reveal_strlit("https://");
        reveal_strlit("http://");
    }
    let a = trim_end_char_of(address, '/');
    let b = trim_start_text_of(a, "https://");
    let c = trim_start_text_of(b, "http://");
    text_before_slash(c).to_owned()
}

/// The listen port of an inbound as a `u16`: the reported port cut to its
/// low 16 bits, 51820 when none is reported.
pub open spec fn wireguard_port_of(port: Option<u64>) -> u16 {
    match port {
        Some(v) => (v % 65536) as u16,
        None => 51820,
    }
}

/// The WireGuard port of an inbound from the port 3x-ui reports.
pub fn wireguard_port(port: Option<u64>) -> (r: u16)
    ensures
        r == wireguard_port_of(port),
{
    match port {
        Some(v) => {
            let p = v as u16;
            assert(p == v % 65536) by (bit_vector)
                requires
                    p == v as u16,
            ;
            p
        },
        None => 51820,
    }
}

/// The public URL under which routers fetch their lists: the configured
/// one, else "http://127.0.0.1:8080".
pub fn lists_base_url(configured: Option<String>) -> (r: String)
    ensures
        r@ == match configured {
            Some(u) => u@,
            None => "http://127.0.0.1:8080"@,
        },
{
    match configured {
        Some(u) => u,
        None => String::from_str("http://127.0.0.1:8080"),
    }
}

/// The address a router's init script assigns: the one stored for the
/// router, else the next free address of the pool given the peers'
/// allowed-IPs entries.
pub fn script_assigned_ip(stored: &Option<String>, existing_ips: &[String]) -> (r: Option<String>)
    ensures
        match *stored {
            Some(ip) => r matches Some(a) && a@ == ip@,
            None => match r {
                Some(ip) => exists|h: nat|
                    crate::wireguard::is_first_free_host(crate::wireguard::texts(existing_ips@), h) && ip@
                        == crate::wireguard::free_host_text(crate::wireguard::texts(existing_ips@), h),
                None => crate::wireguard::pool_exhausted(crate::wireguard::texts(existing_ips@)),
            },
        },
{
    match stored {
        Some(ip) => Some(ip.clone()),
        None => next_peer_ip(existing_ips),
    }
}

/// The values of the routes of type `kind`, in order.
pub open spec fn route_values(routes: Seq<Route>, kind: Seq<char>) -> Seq<Seq<char>>
    decreases routes.len(),
{
    if routes.len() == 0 {
        Seq::empty()
    } else {
        let rest = route_values(routes.drop_last(), kind);
        if routes.last().route_type@ == kind {
            rest.push(routes.last().value@)
        } else {
            rest
        }
    }
}

/// One line per value: `command`, the value, a newline.
pub open spec fn command_lines(command: Seq<char>, values: Seq<Seq<char>>) -> Seq<char>
    decreases values.len(),
{
    if values.len() == 0 {
        Seq::empty()
    } else {
        command_lines(command, values.drop_last()) + command + values.last() + "\n"@
    }
}

/// A script section: nothing without values, else the menu `header`, the
/// command lines and a blank line.
pub open spec fn script_section(header: Seq<char>, command: Seq<char>, values: Seq<Seq<char>>) -> Seq<
    char,
> {
    if values.len() == 0 {
        Seq::empty()
    } else {
        header + command_lines(command, values) + "\n"@
    }
}

/// The comment and the clean-up commands every list script starts with.
pub open spec fn list_script_preamble() -> Seq<char> {
    "# bypass-hub vpn list\n"@ + "# auto-generated, do not edit\n\n"@
        + "/ip firewall address-list remove [find list=to_vpn_list]\n"@
        + "/ip dns static remove [find address-list=to_vpn_list]\n\n"@
}

/// The RouterOS script a router pulls: the preamble, the "ip" routes added
/// to the `to_vpn_list` address list, then the "domain" routes added as
/// forwarding DNS entries (with subdomains) that feed the same list.
pub open spec fn vpn_list_script_text(routes: Seq<Route>) -> Seq<char> {
    list_script_preamble() + script_section(
        "/ip firewall address-list\n"@,
        "add list=to_vpn_list address="@,
        route_values(routes, "ip"@),
    ) + script_section(
        "/ip dns static\n"@,
        "add type=FWD address-list=to_vpn_list match-subdomain=yes name="@,
        route_values(routes, "domain"@),
    )
}

fn append_section(out: &mut String, header: &str, command: &str, routes: &[Route], kind: &str)
    ensures
        final(out)@ == old(out)@ + script_section(header@, command@, route_values(routes@, kind@)),
{
    let mut lines = String::new();
    let mut count: usize = 0;
    let n = routes.len();
    let mut i: usize = 0;
    assert(routes@.take(0) == Seq::<Route>::empty());
    while i < n
        invariant
            n == routes@.len(),
            i <= n,
            count <= i,
            count == route_values(routes@.take(i as int), kind@).len(),
            lines@ == command_lines(command@, route_values(routes@.take(i as int), kind@)),
        decreases n - i,
    {
        let ghost prev = routes@.take(i as int);
        assert(routes@.take(i + 1).drop_last() == prev);
        assert(routes@.take(i + 1).last() == routes@[i as int]);
        let r = &routes[i];
        if text_eq(r.route_type.as_str(), kind) {
            let ghost vs = route_values(prev, kind@);
            assert(vs.push(r.value@).drop_last() == vs);
            lines.append(command);
            lines.append(r.value.as_str());
            lines.append("\n");
            count = count + 1;
        }
        i = i + 1;
    }
    assert(routes@.take(n as int) == routes@);
    if count > 0 {
        out.append(header);
        out.append(lines.as_str());
        out.append("\n");
    } else {
        assert(old(out)@ + Seq::<char>::empty() == old(out)@);
    }
}

/// The route-list script for routers, built from all routes.
pub fn vpn_list_script(routes: &[Route]) -> (r: String)
    ensures
        r@ == vpn_list_script_text(routes@),
{
    let mut script = String::from_str("# bypass-hub vpn list\n");
    script.append("# auto-generated, do not edit\n\n");
    script.append("/ip firewall address-list remove [find list=to_vpn_list]\n");
    script.append("/ip dns static remove [find address-list=to_vpn_list]\n\n");
    append_section(
        &mut script,
        "/ip firewall address-list\n",
        "add list=to_vpn_list address=",
        routes,
        "ip",
    );
    append_section(
        &mut script,
        "/ip dns static\n",
        "add type=FWD address-list=to_vpn_list match-subdomain=yes name=",
        routes,
        "domain",
    );
    script
}

proof fn lemma_command_lines_concat(c: Seq<char>, a: Seq<Seq<char>>, b: Seq<Seq<char>>)
    ensures
        command_lines(c, a + b) == command_lines(c, a) + command_lines(c, b),
    decreases b.len(),
{
    if b.len() == 0 {
        assert(a + b == a);
        assert(command_lines(c, a) + Seq::<char>::empty() == command_lines(c, a));
    } else {
        lemma_command_lines_concat(c, a, b.drop_last());
        assert((a + b).drop_last() == a + b.drop_last());
        assert((a + b).last() == b.last());
    }
}

/// The command lines of `vs` around the line of value `i`.
proof fn lemma_command_line_at(c: Seq<char>, vs: Seq<Seq<char>>, i: int)
    requires
        0 <= i < vs.len(),
    ensures
        command_lines(c, vs) == command_lines(c, vs.take(i)) + (c + vs[i] + "\n"@) + command_lines(
            c,
            vs.skip(i + 1),
        ),
{
    let one = seq![vs[i]];
    assert(vs == vs.take(i) + (one + vs.skip(i + 1)));
    lemma_command_lines_concat(c, vs.take(i), one + vs.skip(i + 1));
    lemma_command_lines_concat(c, one, vs.skip(i + 1));
    assert(one.drop_last() == Seq::<Seq<char>>::empty());
    assert(one.last() == vs[i]);
    assert(command_lines(c, Seq::<Seq<char>>::empty()) == Seq::<char>::empty());
    assert(command_lines(c, one) == Seq::<char>::empty() + c + vs[i] + "\n"@);
    assert(Seq::<char>::empty() + c + vs[i] + "\n"@ == c + vs[i] + "\n"@);
}

/// The line of the list script that adds `value` to the `to_vpn_list`
/// address list.
pub open spec fn address_line(value: Seq<char>) -> Seq<char> {
    "add list=to_vpn_list address="@ + value + "\n"@
}

/// Where the line of the `i`-th "ip" route stands in the list script.
proof fn lemma_address_line_position(routes: Seq<Route>, i: int) -> (p: int)
    requires
        0 <= i < route_values(routes, "ip"@).len(),
    ensures
        occurs_at(vpn_list_script_text(routes), address_line(route_values(routes, "ip"@)[i]), p),
        p == list_script_preamble().len() + "/ip firewall address-list\n"@.len() + command_lines(
            "add list=to_vpn_list address="@,
            route_values(routes, "ip"@).take(i),
        ).len(),
{
    let c = "add list=to_vpn_list address="@;
    let ips = route_values(routes, "ip"@);
    let line = address_line(ips[i]);
    lemma_command_line_at(c, ips, i);
    let x = list_script_preamble() + "/ip firewall address-list\n"@ + command_lines(c, ips.take(i));
    let y = command_lines(c, ips.skip(i + 1)) + "\n"@ + script_section(
        "/ip dns static\n"@,
        "add type=FWD address-list=to_vpn_list match-subdomain=yes name="@,
        route_values(routes, "domain"@),
    );
    let text = vpn_list_script_text(routes);
    assert(text == x + line + y);
    assert((x + line + y).subrange(x.len() as int, (x.len() + line.len()) as int) == line);
    x.len() as int
}

/// Every "ip" route gets its line in the router's list script, whatever
/// the other routes are: "add list=to_vpn_list address=" and its value.
pub proof fn law_each_ip_route_has_its_address_line(routes: Seq<Route>, i: int)
    requires
        0 <= i < route_values(routes, "ip"@).len(),
    ensures
        exists|p: int|
            occurs_at(vpn_list_script_text(routes), address_line(route_values(routes, "ip"@)[i]), p),
{
    let p = lemma_address_line_position(routes, i);
}

/// The address-list lines of the "ip" routes come in the routes' order.
pub proof fn law_address_lines_follow_route_order(routes: Seq<Route>, i: int, j: int)
    requires
        0 <= i < j < route_values(routes, "ip"@).len(),
    ensures
        exists|p: int, q: int|
            p < q && occurs_at(
                vpn_list_script_text(routes),
                address_line(route_values(routes, "ip"@)[i]),
                p,
            ) && occurs_at(
                vpn_list_script_text(routes),
                address_line(route_values(routes, "ip"@)[j]),
                q,
            ),
{
    let c = "add list=to_vpn_list address="@;
    let ips = route_values(routes, "ip"@);
    let p = lemma_address_line_position(routes, i);
    let q = lemma_address_line_position(routes, j);
    let tj = ips.take(j);
    assert(tj.take(i) == ips.take(i));
    assert(tj[i] == ips[i]);
    lemma_command_line_at(c, tj, i);
    reveal_strlit("\n");
    assert(command_lines(c, tj).len() > command_lines(c, ips.take(i)).len());
}

/// The line of the list script that forwards `name` (with its subdomains)
/// into the `to_vpn_list` address list.
pub open spec fn dns_line(name: Seq<char>) -> Seq<char> {
    "add type=FWD address-list=to_vpn_list match-subdomain=yes name="@ + name + "\n"@
}

/// Where the line of the `i`-th "domain" route stands in the list script.
proof fn lemma_dns_line_position(routes: Seq<Route>, i: int) -> (p: int)
    requires
        0 <= i < route_values(routes, "domain"@).len(),
    ensures
        occurs_at(vpn_list_script_text(routes), dns_line(route_values(routes, "domain"@)[i]), p),
        p == list_script_preamble().len() + script_section(
            "/ip firewall address-list\n"@,
            "add list=to_vpn_list address="@,
            route_values(routes, "ip"@),
        ).len() + "/ip dns static\n"@.len() + command_lines(
            "add type=FWD address-list=to_vpn_list match-subdomain=yes name="@,
            route_values(routes, "domain"@).take(i),
        ).len(),
{
    let c = "add type=FWD address-list=to_vpn_list match-subdomain=yes name="@;
    let names = route_values(routes, "domain"@);
    let line = dns_line(names[i]);
    lemma_command_line_at(c, names, i);
    let x = list_script_preamble() + script_section(
        "/ip firewall address-list\n"@,
        "add list=to_vpn_list address="@,
        route_values(routes, "ip"@),
    ) + "/ip dns static\n"@ + command_lines(c, names.take(i));
    let y = command_lines(c, names.skip(i + 1)) + "\n"@;
    let text = vpn_list_script_text(routes);
    assert(text == x + line + y);
    assert((x + line + y).subrange(x.len() as int, (x.len() + line.len()) as int) == line);
    x.len() as int
}

/// Every "domain" route gets its forwarding line in the router's list
/// script, whatever the other routes are.
pub proof fn law_each_domain_route_has_its_dns_line(routes: Seq<Route>, i: int)
    requires
        0 <= i < route_values(routes, "domain"@).len(),
    ensures
        exists|p: int|
            occurs_at(vpn_list_script_text(routes), dns_line(route_values(routes, "domain"@)[i]), p),
{
    let p = lemma_dns_line_position(routes, i);
}

/// The forwarding lines of the "domain" routes come in the routes' order.
pub proof fn law_dns_lines_follow_route_order(routes: Seq<Route>, i: int, j: int)
    requires
        0 <= i < j < route_values(routes, "domain"@).len(),
    ensures
        exists|p: int, q: int|
            p < q && occurs_at(
                vpn_list_script_text(routes),
                dns_line(route_values(routes, "domain"@)[i]),
                p,
            ) && occurs_at(
                vpn_list_script_text(routes),
                dns_line(route_values(routes, "domain"@)[j]),
                q,
            ),
{
    let c = "add type=FWD address-list=to_vpn_list match-subdomain=yes name="@;
    let names = route_values(routes, "domain"@);
    let p = lemma_dns_line_position(routes, i);
    let q = lemma_dns_line_position(routes, j);
    let tj = names.take(j);
    assert(tj.take(i) == names.take(i));
    assert(tj[i] == names[i]);
    lemma_command_line_at(c, tj, i);
    reveal_strlit("\n");
    assert(command_lines(c, tj).len() > command_lines(c, names.take(i)).len());
}

} // verus!
