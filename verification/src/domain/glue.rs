//! Glue records: the envelopes returned by the glue endpoints, their
//! renderings, the decoding of the loosely typed wire payloads into them,
//! and the request paths and bodies the operations send.

use crate::addr::{ip_text, ipv4_text, ipv6_text, IpAddr, Ipv4, Ipv6};
use crate::nonempty::NonEmptySequence;
use crate::text::{join_texts, join_with, views_of};
use crate::{status_token, upper_is, DecodeError, Status};
use vstd::prelude::*;

verus! {

/// The envelope holding nothing but the returned status.
#[derive(Debug, Clone, Copy, PartialEq, Eq, Structural)]
pub struct StatusResponse {
    /// The remote service's status.
    pub status: Status,
}

impl StatusResponse {
    /// The rendering shown to users: the status token alone.
    pub fn render(&self) -> (r: String)
        ensures
            r@ == status_token(self.status),
    {
        self.status.render()
    }

    /// Decodes the envelope from its wire status token. Succeeds if and only
    /// if the token names one of the two statuses.
    pub fn decode(token: &str) -> (r: Result<StatusResponse, DecodeError>)
        ensures
            r is Ok <==> upper_is(token@, "SUCCESS"@) || upper_is(token@, "ERROR"@),
            r matches Ok(sr) ==> (sr.status == Status::Success <==> upper_is(
                token@,
                "SUCCESS"@,
            )),
            r matches Err(e) ==> e matches DecodeError::UnknownStatus(t) && t@ == token@,
    {
        match crate::decode_status(token) {
            Ok(status) => Ok(StatusResponse { status }),
            Err(e) => Err(e),
        }
    }
}

/// The address groups returned for one glue host. Either family may be
/// absent; a family that is present holds at least one address.
#[derive(Debug)]
pub struct IPsResponse {
    /// The IPv4 addresses, if there are any.
    pub v4: Option<NonEmptySequence<Ipv4>>,
    /// The IPv6 addresses, if there are any.
    pub v6: Option<NonEmptySequence<Ipv6>>,
}

/// The texts of a list of IPv4 addresses.
pub open spec fn ipv4_texts(l: Seq<Ipv4>) -> Seq<Seq<char>> {
    l.map_values(|ip: Ipv4| ipv4_text(ip))
}

/// The texts of a list of IPv6 addresses.
pub open spec fn ipv6_texts(l: Seq<Ipv6>) -> Seq<Seq<char>> {
    l.map_values(|ip: Ipv6| ipv6_text(ip))
}

/// What [`IPsResponse::render`] produces: the IPv4 list joined with commas,
/// then, on a line of its own, the IPv6 list; an absent family contributes
/// nothing.
pub open spec fn ips_rendering(r: IPsResponse) -> Seq<char> {
    (match r.v4 {
        Some(l) => join_texts(ipv4_texts(l@), ", "@),
        None => Seq::empty(),
    }) + (match r.v6 {
        Some(l) => seq!['\n'] + join_texts(ipv6_texts(l@), ", "@),
        None => Seq::empty(),
    })
}

fn render_v4_list(l: &NonEmptySequence<Ipv4>) -> (r: String)
    ensures
        r@ == join_texts(ipv4_texts(l@), ", "@),
{
    let mut parts: Vec<String> = Vec::new();
    let n = l.len();
    for i in 0..n
        invariant
            n == l@.len(),
            parts@.len() == i,
            forall|k: int| 0 <= k < i ==> (#[trigger] parts@[k])@ == ipv4_text(l@[k]),
    {
        parts.push(l.get(i).render());
    }
    proof {
        assert(views_of(parts@) =~~= ipv4_texts(l@));
    }
    join_with(&parts, ", ")
}

fn render_v6_list(l: &NonEmptySequence<Ipv6>) -> (r: String)
    ensures
        r@ == join_texts(ipv6_texts(l@), ", "@),
{
    let mut parts: Vec<String> = Vec::new();
    let n = l.len();
    for i in 0..n
        invariant
            n == l@.len(),
            parts@.len() == i,
            forall|k: int| 0 <= k < i ==> (#[trigger] parts@[k])@ == ipv6_text(l@[k]),
    {
        parts.push(l.get(i).render());
    }
    proof {
        assert(views_of(parts@) =~~= ipv6_texts(l@));
    }
    join_with(&parts, ", ")
}

impl IPsResponse {
    /// The rendering of the two address groups on their own.
    pub fn render(&self) -> (r: String)
        ensures
            r@ == ips_rendering(*self),
    {
        let mut r = String::new();
        if let Some(l) = &self.v4 {
            r.append(render_v4_list(l).as_str());
        }
        if let Some(l) = &self.v6 {
            crate::text::push_char(&mut r, '\n');
            r.append(render_v6_list(l).as_str());
        }
        proof {
            assert(r@ =~= ips_rendering(*self));
        }
        r
    }
}

/// What one host contributes to the hosts rendering: its name, then its
/// address lists indented on their own lines; `n/a` when it has none.
pub open spec fn host_entry_text(host: Seq<char>, ips: IPsResponse) -> Seq<char> {
    match (ips.v4, ips.v6) {
        (Option::None, Option::None) => host + ": n/a"@,
        (Option::Some(l4), Option::None) => host + ":\n  "@ + join_texts(ipv4_texts(l4@), ", "@),
        (Option::None, Option::Some(l6)) => host + ":\n  "@ + join_texts(ipv6_texts(l6@), ", "@),
        (Option::Some(l4), Option::Some(l6)) => host + ":\n  "@ + join_texts(
            ipv4_texts(l4@),
            ", "@,
        ) + "\n  "@ + join_texts(ipv6_texts(l6@), ", "@),
    }
}

fn render_host_entry(host: &String, ips: &IPsResponse) -> (r: String)
    ensures
        r@ == host_entry_text(host@, *ips),
{
    let mut r = String::new();
    r.append(host.as_str());
    match (&ips.v4, &ips.v6) {
        (Option::None, Option::None) => {
            r.append(": n/a");
        },
        (Option::Some(l4), Option::None) => {
            r.append(":\n  ");
            r.append(render_v4_list(l4).as_str());
        },
        (Option::None, Option::Some(l6)) => {
            r.append(":\n  ");
            r.append(render_v6_list(l6).as_str());
        },
        (Option::Some(l4), Option::Some(l6)) => {
            r.append(":\n  ");
            r.append(render_v4_list(l4).as_str());
            r.append("\n  ");
            r.append(render_v6_list(l6).as_str());
        },
    }
    proof {
        assert(r@ =~= host_entry_text(host@, *ips));
    }
    r
}

/// The status returned for a glue lookup together with every glue host and
/// its addresses, in wire order.
#[derive(Debug)]
pub struct StatusWithHostsResponse {
    /// Each glue host with its address groups, in the order the wire sent.
    pub hosts: Vec<(String, IPsResponse)>,
    /// The remote service's status.
    pub status: StatusResponse,
}

/// What [`StatusWithHostsResponse::render`] produces: every host's entry,
/// one under the other.
pub open spec fn hosts_rendering(hosts: Seq<(String, IPsResponse)>) -> Seq<char> {
    join_texts(
        hosts.map_values(|h: (String, IPsResponse)| host_entry_text(h.0@, h.1)),
        "\n"@,
    )
}

impl StatusWithHostsResponse {
    /// The rendering shown to users: each host on its own lines.
    pub fn render(&self) -> (r: String)
        ensures
            r@ == hosts_rendering(self.hosts@),
    {
        let mut parts: Vec<String> = Vec::new();
        let n = self.hosts.len();
        for i in 0..n
            invariant
                n == self.hosts@.len(),
                parts@.len() == i,
                forall|k: int|
                    0 <= k < i ==> (#[trigger] parts@[k])@ == host_entry_text(
                        self.hosts@[k].0@,
                        self.hosts@[k].1,
                    ),
        {
            let entry = render_host_entry(&self.hosts[i].0, &self.hosts[i].1);
            parts.push(entry);
        }
        proof {
            assert(views_of(parts@) =~~= self.hosts@.map_values(
                |h: (String, IPsResponse)| host_entry_text(h.0@, h.1),
            ));
        }
        join_with(&parts, "\n")
    }
}

/// The address lists of one host as the wire sends them: either family may
/// be absent, and a present family's list has not yet been checked for
/// emptiness.
#[derive(Debug)]
pub struct RawAddressGroup {
    /// The IPv4 addresses, if the family is present.
    pub v4: Option<Vec<Ipv4>>,
    /// The IPv6 addresses, if the family is present.
    pub v6: Option<Vec<Ipv6>>,
}

/// True when every family the group claims holds at least one address.
pub open spec fn group_ok(g: RawAddressGroup) -> bool {
    (g.v4 matches Some(v) ==> v@.len() >= 1) && (g.v6 matches Some(v) ==> v@.len() >= 1)
}

/// True when `ips` holds exactly the addresses of the wire group `g`.
pub open spec fn group_matches(g: RawAddressGroup, ips: IPsResponse) -> bool {
    (match g.v4 {
        Some(v) => ips.v4 matches Some(l) && l@ == v@,
        None => ips.v4 is None,
    }) && (match g.v6 {
        Some(v) => ips.v6 matches Some(l) && l@ == v@,
        None => ips.v6 is None,
    })
}

fn decode_group(g: RawAddressGroup) -> (r: Result<IPsResponse, DecodeError>)
    ensures
        r is Ok <==> group_ok(g),
        r matches Ok(ips) ==> group_matches(g, ips),
        r matches Err(e) ==> e matches DecodeError::Construction(ce) && ce
            == crate::ConstructionError::EmptyInput,
{
    let v4 = match g.v4 {
        Some(v) => match NonEmptySequence::construct(v) {
            Ok(l) => Some(l),
            Err(ce) => {
                return Err(DecodeError::Construction(ce));
            },
        },
        None => None,
    };
    let v6 = match g.v6 {
        Some(v) => match NonEmptySequence::construct(v) {
            Ok(l) => Some(l),
            Err(ce) => {
                return Err(DecodeError::Construction(ce));
            },
        },
        None => None,
    };
    Ok(IPsResponse { v4, v6 })
}

/// Builds the typed hosts envelope from the decoded wire document: each
/// host's claimed address families are checked to be non-empty, the status
/// token is decoded, and the wire order of hosts is preserved. Fails — as a
/// whole, building nothing — on an unknown status token or an empty claimed
/// address list.
pub fn decode_glue_hosts(hosts: Vec<(String, RawAddressGroup)>, status_token: &str) -> (r: Result<
    StatusWithHostsResponse,
    DecodeError,
>)
    ensures
        r is Ok <==> (upper_is(status_token@, "SUCCESS"@) || upper_is(status_token@, "ERROR"@))
            && (forall|i: int| 0 <= i < hosts@.len() ==> group_ok(#[trigger] hosts@[i].1)),
        r matches Ok(resp) ==> {
            &&& resp.hosts@.len() == hosts@.len()
            &&& forall|i: int|
                0 <= i < hosts@.len() ==> (#[trigger] resp.hosts@[i]).0@ == hosts@[i].0@
                    && group_matches(hosts@[i].1, resp.hosts@[i].1)
            &&& (resp.status.status == Status::Success <==> upper_is(status_token@, "SUCCESS"@))
        },
        r matches Err(e) ==> match e {
            DecodeError::UnknownStatus(t) => t@ == status_token@ && !upper_is(
                status_token@,
                "SUCCESS"@,
            ) && !upper_is(status_token@, "ERROR"@),
            DecodeError::Construction(ce) => ce == crate::ConstructionError::EmptyInput && exists|
                i: int,
            | 0 <= i < hosts@.len() && !group_ok(#[trigger] hosts@[i].1),
            _ => false,
        },
{
    let status = match StatusResponse::decode(status_token) {
        Ok(s) => s,
        Err(e) => {
            return Err(e);
        },
    };
    let ghost orig = hosts@;
    let mut rest = hosts;
    let mut out: Vec<(String, IPsResponse)> = Vec::new();
    proof {
        assert(orig == hosts@);
    }
    while rest.len() > 0
        invariant
            orig == hosts@,
            out@.len() + rest@.len() == orig.len(),
            forall|i: int|
                0 <= i < rest@.len() ==> #[trigger] rest@[i] == orig[out@.len() + i],
            forall|i: int|
                0 <= i < out@.len() ==> (#[trigger] out@[i]).0@ == orig[i].0@ && group_ok(
                    orig[i].1,
                ) && group_matches(orig[i].1, out@[i].1),
        decreases rest@.len(),
    {
        let ghost k: int = out@.len() as int;
        let (name, g) = rest.remove(0);
        proof {
            assert(rest@ =~= orig.subrange(k + 1, orig.len() as int));
        }
        match decode_group(g) {
            Ok(ips) => {
                out.push((name, ips));
            },
            Err(e) => {
                proof {
                    assert(0 <= k < orig.len() && !group_ok(orig[k].1));
                    assert(!(forall|i: int|
                        0 <= i < orig.len() ==> group_ok(#[trigger] orig[i].1)));
                }
                return Err(e);
            },
        }
    }
    proof {
        assert forall|i: int| 0 <= i < orig.len() implies group_ok(#[trigger] orig[i].1) by {
            assert((out@[i]).0@ == orig[i].0@);
        }
    }
    Ok(StatusWithHostsResponse { hosts: out, status })
}

/// The quoted standard texts of a list of addresses.
pub open spec fn quoted_ip_texts(ips: Seq<IpAddr>) -> Seq<Seq<char>> {
    ips.map_values(|ip: IpAddr| "\""@ + ip_text(ip) + "\""@)
}

/// The JSON body for glue create and update: the credentials' wire fields
/// merged flat with the `ips` list, each address as its standard text.
pub open spec fn with_ips_body_text(c: crate::Credentials, ips: Seq<IpAddr>) -> Seq<char> {
    "{\"apikey\":\""@ + crate::text::json_escaped(c.api_key@) + "\",\"secretapikey\":\""@
        + crate::text::json_escaped(c.secret_api_key@) + "\",\"ips\":["@ + join_texts(
        quoted_ip_texts(ips),
        ","@,
    ) + "]}"@
}

/// Builds the request body for glue create and update. Taking the address
/// list through [`NonEmptySequence`] is what makes an empty list fail before
/// any request exists.
pub fn with_ips_body(creds: &crate::Credentials, ips: &NonEmptySequence<IpAddr>) -> (r: String)
    ensures
        r@ == with_ips_body_text(*creds, ips@),
{
    let mut parts: Vec<String> = Vec::new();
    let n = ips.len();
    for i in 0..n
        invariant
            n == ips@.len(),
            parts@.len() == i,
            forall|k: int|
                0 <= k < i ==> (#[trigger] parts@[k])@ == "\""@ + ip_text(ips@[k]) + "\""@,
    {
        let mut q = String::from_str("\"");
        q.append(ips.get(i).render().as_str());
        q.append("\"");
        parts.push(q);
    }
    proof {
        assert(views_of(parts@) =~~= quoted_ip_texts(ips@));
    }
    let mut r = String::from_str("{\"apikey\":\"");
    crate::text::append_escaped(&mut r, creds.api_key.as_str());
    r.append("\",\"secretapikey\":\"");
    crate::text::append_escaped(&mut r, creds.secret_api_key.as_str());
    r.append("\",\"ips\":[");
    r.append(join_with(&parts, ",").as_str());
    r.append("]}");
    proof {
        assert(r@ =~= with_ips_body_text(*creds, ips@));
    }
    r
}

/// The URL a glue create is posted to.
pub fn create_glue_path(domain: &str, glue_host_subdomain: &str) -> (r: String)
    ensures
        r@ == "https://api.porkbun.com/api/json/v3/domain/createGlue/"@ + domain@ + "/"@
            + glue_host_subdomain@,
{
    let mut r = String::from_str("https://api.porkbun.com/api/json/v3/domain/createGlue/");
    r.append(domain);
    r.append("/");
    r.append(glue_host_subdomain);
    proof {
        assert(r@ =~= "https://api.porkbun.com/api/json/v3/domain/createGlue/"@ + domain@ + "/"@
            + glue_host_subdomain@);
    }
    r
}

/// The URL a glue update is posted to.
pub fn update_glue_path(domain: &str, glue_subdomain: &str) -> (r: String)
    ensures
        r@ == "https://api.porkbun.com/api/json/v3/domain/updateGlue/"@ + domain@ + "/"@
            + glue_subdomain@,
{
    let mut r = String::from_str("https://api.porkbun.com/api/json/v3/domain/updateGlue/");
    r.append(domain);
    r.append("/");
    r.append(glue_subdomain);
    proof {
        assert(r@ =~= "https://api.porkbun.com/api/json/v3/domain/updateGlue/"@ + domain@ + "/"@
            + glue_subdomain@);
    }
    r
}

/// The URL a glue delete is posted to.
pub fn delete_glue_path(domain: &str, glue_host_subdomain: &str) -> (r: String)
    ensures
        r@ == "https://api.porkbun.com/api/json/v3/domain/deleteGlue/"@ + domain@ + "/"@
            + glue_host_subdomain@,
{
    let mut r = String::from_str("https://api.porkbun.com/api/json/v3/domain/deleteGlue/");
    r.append(domain);
    r.append("/");
    r.append(glue_host_subdomain);
    proof {
        assert(r@ =~= "https://api.porkbun.com/api/json/v3/domain/deleteGlue/"@ + domain@ + "/"@
            + glue_host_subdomain@);
    }
    r
}

/// The URL a glue lookup is posted to.
pub fn get_glue_path(domain: &str) -> (r: String)
    ensures
        r@ == "https://api.porkbun.com/api/json/v3/domain/getGlue/"@ + domain@,
{
    let mut r = String::from_str("https://api.porkbun.com/api/json/v3/domain/getGlue/");
    r.append(domain);
    proof {
        assert(r@ =~= "https://api.porkbun.com/api/json/v3/domain/getGlue/"@ + domain@);
    }
    r
}

} // verus!
