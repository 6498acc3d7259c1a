//! The calls into other crates, each with what is taken for granted of it.
use cidr_utils::cidr::{IpCidr, IpInet, Ipv4Cidr, Ipv4Inet, Ipv6Cidr, Ipv6Inet};
use hickory_resolver::config::{NameServerConfig, Protocol, ResolverConfig};
use hickory_resolver::proto::rr::RData;
use hickory_resolver::TryParseIp;
use std::str::FromStr;
use vstd::prelude::*;

use crate::ip::{host_net, Inet, Ip, Net};

verus! {

/// The address that a text spells, where it spells one: the result of hickory's
/// `TryParseIp::try_parse_ip` on the text, which is the standard library's parser for
/// IPv4 and IPv6 addresses.
pub uninterp spec fn ip_text(text: Seq<char>) -> Option<Ip>;

/// The address and prefix that a text spells, where it spells them: the result of
/// cidr's `IpInet::from_str` on the text.
pub uninterp spec fn inet_text(text: Seq<char>) -> Option<Inet>;

/// The network that a text spells, where it spells one: the result of cidr's
/// `IpCidr::from_str` on the text.
pub uninterp spec fn cidr_text(text: Seq<char>) -> Option<Net>;

/// Calls `hickory_resolver::TryParseIp::try_parse_ip` for `str`: an IPv4 address comes
/// back as an `A` record and an IPv6 address as an `AAAA` record. Taken for granted:
/// the result is a function of the text.
#[verifier::external_body]
pub(crate) fn parse_ip(text: &str) -> (ip: Option<Ip>)
    ensures
        ip == ip_text(text@),
{
    match text.try_parse_ip() {
        Some(RData::A(record)) => Some(Ip::V4(record.0.into())),
        Some(RData::AAAA(record)) => Some(Ip::V6(record.0.into())),
        _ => None,
    }
}

/// Calls `cidr::IpInet::from_str`. Taken for granted: the result is a function of the
/// text, and a prefix that it accepts is no longer than the address.
#[verifier::external_body]
pub(crate) fn parse_inet(text: &str) -> (inet: Option<Inet>)
    ensures
        inet == inet_text(text@),
        inet matches Some(found) ==> found.wf(),
{
    match IpInet::from_str(text) {
        Ok(IpInet::V4(inet)) => Some(
            Inet { address: Ip::V4(inet.address().into()), prefix: inet.network_length() },
        ),
        Ok(IpInet::V6(inet)) => Some(
            Inet { address: Ip::V6(inet.address().into()), prefix: inet.network_length() },
        ),
        Err(_) => None,
    }
}

/// Calls `cidr::IpCidr::from_str`. Taken for granted: the result is a function of the
/// text, the prefix is no longer than the address, and the host bits are zero.
#[verifier::external_body]
pub(crate) fn parse_cidr(text: &str) -> (net: Option<Net>)
    ensures
        net == cidr_text(text@),
        net matches Some(found) ==> found.wf(),
{
    match IpCidr::from_str(text) {
        Ok(IpCidr::V4(net)) => Some(
            Net { first: Ip::V4(net.first_address().into()), prefix: net.network_length() },
        ),
        Ok(IpCidr::V6(net)) => Some(
            Net { first: Ip::V6(net.first_address().into()), prefix: net.network_length() },
        ),
        Err(_) => None,
    }
}

/// Calls `cidr::IpInet::network`. Taken for granted: the host bits become zero and the
/// prefix stays.
#[verifier::external_body]
pub(crate) fn network_of(inet: Inet) -> (net: Net)
    requires
        inet.wf(),
    ensures
        net == inet.network(),
{
    let inet = match inet.address {
        Ip::V4(bits) => IpInet::V4(Ipv4Inet::new(bits.into(), inet.prefix).unwrap()),
        Ip::V6(bits) => IpInet::V6(Ipv6Inet::new(bits.into(), inet.prefix).unwrap()),
    };
    match inet.network() {
        IpCidr::V4(net) => Net {
            first: Ip::V4(net.first_address().into()),
            prefix: net.network_length(),
        },
        IpCidr::V6(net) => Net {
            first: Ip::V6(net.first_address().into()),
            prefix: net.network_length(),
        },
    }
}

/// Calls `cidr::IpCidr::new_host`. Taken for granted: the network holds the one
/// address, with a prefix as long as the address.
#[verifier::external_body]
pub(crate) fn new_host(ip: Ip) -> (net: Net)
    ensures
        net == host_net(ip),
{
    let ip = match ip {
        Ip::V4(bits) => IpInet::V4(Ipv4Inet::new_host(bits.into())).address(),
        Ip::V6(bits) => IpInet::V6(Ipv6Inet::new_host(bits.into())).address(),
    };
    match IpCidr::new_host(ip) {
        IpCidr::V4(net) => Net {
            first: Ip::V4(net.first_address().into()),
            prefix: net.network_length(),
        },
        IpCidr::V6(net) => Net {
            first: Ip::V6(net.first_address().into()),
            prefix: net.network_length(),
        },
    }
}

/// Calls `cidr::Ipv4Cidr::last_address` or `cidr::Ipv6Cidr::last_address`. Taken for
/// granted: the last address is the one whose host bits are all one.
#[verifier::external_body]
pub(crate) fn last_address(net: Net) -> (ip: Ip)
    requires
        net.wf(),
    ensures
        ip == net.last(),
{
    match net.first {
        Ip::V4(bits) => Ip::V4(
            Ipv4Cidr::new(bits.into(), net.prefix).unwrap().last_address().into(),
        ),
        Ip::V6(bits) => Ip::V6(
            Ipv6Cidr::new(bits.into(), net.prefix).unwrap().last_address().into(),
        ),
    }
}

/// Calls `cidr::IpCidr::contains`. Taken for granted: an address is contained exactly
/// where it has the network's family and lies between its lowest and highest address.
#[verifier::external_body]
pub(crate) fn net_contains(net: &Net, ip: Ip) -> (found: bool)
    requires
        net.wf(),
    ensures
        found == net.contains(ip),
{
    let net = match net.first {
        Ip::V4(bits) => IpCidr::V4(Ipv4Cidr::new(bits.into(), net.prefix).unwrap()),
        Ip::V6(bits) => IpCidr::V6(Ipv6Cidr::new(bits.into(), net.prefix).unwrap()),
    };
    let ip = match ip {
        Ip::V4(bits) => IpInet::V4(Ipv4Inet::new_host(bits.into())).address(),
        Ip::V6(bits) => IpInet::V6(Ipv6Inet::new_host(bits.into())).address(),
    };
    net.contains(&ip)
}

/// Whether a character has Unicode's `White_Space` property.
pub open spec fn white_space(c: char) -> bool {
    ||| '\u{9}' <= c <= '\u{d}'
    ||| c == '\u{20}'
    ||| c == '\u{85}'
    ||| c == '\u{a0}'
    ||| c == '\u{1680}'
    ||| '\u{2000}' <= c <= '\u{200a}'
    ||| c == '\u{2028}'
    ||| c == '\u{2029}'
    ||| c == '\u{202f}'
    ||| c == '\u{205f}'
    ||| c == '\u{3000}'
}

/// Calls `char::is_whitespace`. Taken for granted: the result says whether the character
/// has Unicode's `White_Space` property.
#[verifier::external_body]
pub(crate) fn is_white_space(c: char) -> (found: bool)
    ensures
        found == white_space(c),
{
    c.is_whitespace()
}

/// The settings of a DNS resolver.
#[verifier::external_type_specification]
#[verifier::external_body]
pub struct ExResolverConfig(ResolverConfig);

/// How a name server is spoken to.
pub enum Transport {
    /// Plain datagrams.
    Udp,
    /// TLS, with the name that the server's certificate has to bear.
    Tls(Seq<char>),
}

/// A name server among a resolver's settings.
pub struct NameServer {
    /// Where the server is.
    pub ip: Ip,
    /// The port that it answers on.
    pub port: u16,
    /// How it is spoken to.
    pub transport: Transport,
}

/// The name servers that a resolver's settings list, in their order.
pub uninterp spec fn config_servers(config: ResolverConfig) -> Seq<NameServer>;

/// Calls `ResolverConfig::new`. Taken for granted: no name server is listed.
#[verifier::external_body]
pub(crate) fn new_config() -> (config: ResolverConfig)
    ensures
        config_servers(config) == Seq::<NameServer>::empty(),
{
    ResolverConfig::new()
}

/// Calls `ResolverConfig::add_name_server` with a server made by
/// `NameServerConfig::new`. Taken for granted: the server is listed behind those that
/// were there.
#[verifier::external_body]
pub(crate) fn add_udp_server(config: &mut ResolverConfig, ip: Ip, port: u16)
    ensures
        config_servers(*final(config)) == config_servers(*old(config)).push(
            (NameServer { ip, port, transport: Transport::Udp }),
        ),
{
    let ip = match ip {
        Ip::V4(bits) => IpInet::V4(Ipv4Inet::new_host(bits.into())).address(),
        Ip::V6(bits) => IpInet::V6(Ipv6Inet::new_host(bits.into())).address(),
    };
    config.add_name_server(NameServerConfig::new((ip, port).into(), Protocol::Udp));
}

/// The name servers of Cloudflare's public resolver, over TLS.
pub open spec fn cloudflare_servers() -> Seq<NameServer> {
    let tls = |ip: Ip| NameServer {
        ip,
        port: 853,
        transport: Transport::Tls("cloudflare-dns.com"@),
    };
    seq![
        tls(Ip::V4(0x01010101)),
        tls(Ip::V4(0x01000001)),
        tls(Ip::V6(0x2606_4700_4700_0000_0000_0000_0000_1111)),
        tls(Ip::V6(0x2606_4700_4700_0000_0000_0000_0000_1001)),
    ]
}

/// Calls `ResolverConfig::cloudflare_tls`. Taken for granted: the settings list
/// Cloudflare's four name servers, each on the port for DNS over TLS.
#[verifier::external_body]
pub(crate) fn cloudflare_config() -> (config: ResolverConfig)
    ensures
        config_servers(config) == cloudflare_servers(),
{
    ResolverConfig::cloudflare_tls()
}

} // verus!
