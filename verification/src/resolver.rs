//! Which name servers the dedicated resolver asks.
use hickory_resolver::config::ResolverConfig;
use vstd::prelude::*;

use crate::bindings::{
    add_udp_server, cloudflare_config, cloudflare_servers, config_servers, ip_text, new_config,
    parse_ip, NameServer, Transport,
};
use crate::ip::Ip;
use crate::text::{lines, lines_of, split, split_text, texts, trim_text, trimmed};

verus! {

/// The port that name servers answer on.
pub const DNS_PORT: u16 = 53;

/// How the dedicated resolver is to be made.
pub enum ResolverPlan {
    /// From these settings.
    Configured(ResolverConfig),
    /// From the system's settings, or from these where the system has none.
    SystemOr(ResolverConfig),
}

/// The addresses that are there, in their order.
pub open spec fn present(found: Seq<Option<Ip>>) -> Seq<Ip>
    decreases found.len(),
{
    if found.len() == 0 {
        Seq::empty()
    } else {
        let before = present(found.drop_last());
        match found.last() {
            Some(ip) => before.push(ip),
            None => before,
        }
    }
}

/// The addresses among the texts, in their order; a text that spells none is skipped.
pub open spec fn ips_among(texts: Seq<Seq<char>>) -> Seq<Ip> {
    present(texts.map_values(|text: Seq<char>| ip_text(text)))
}

/// The addresses that a file lists, one on a line, with white space around them or
/// without.
pub open spec fn file_ips(text: Seq<char>) -> Seq<Ip> {
    ips_among(lines(text).map_values(|line: Seq<char>| trimmed(line)))
}

/// The addresses that a text lists between commas.
pub open spec fn comma_ips(text: Seq<char>) -> Seq<Ip> {
    ips_among(split(text, ','))
}

/// Name servers at these addresses, on the usual port.
pub open spec fn udp_servers(ips: Seq<Ip>) -> Seq<NameServer> {
    ips.map_values(|ip: Ip| NameServer { ip, port: DNS_PORT, transport: Transport::Udp })
}

/// Keeps the addresses that are there.
pub fn keep_present(found: &Vec<Option<Ip>>) -> (ips: Vec<Ip>)
    ensures
        ips@ == present(found@),
{
    let mut ips: Vec<Ip> = Vec::new();
    let mut i: usize = 0;
    while i < found.len()
        invariant
            i <= found.len(),
            ips@ == present(found@.take(i as int)),
        decreases found.len() - i,
    {
        assert(found@.take(i + 1).drop_last() =~= found@.take(i as int));
        if let Some(ip) = found[i] {
            ips.push(ip);
        }
        i += 1;
    }
    assert(found@.take(i as int) =~= found@);
    ips
}

/// Reads the addresses among the texts.
fn read_ips(list: &Vec<&str>) -> (ips: Vec<Ip>)
    ensures
        ips@ == ips_among(texts(list@)),
{
    let ghost read = texts(list@).map_values(|text: Seq<char>| ip_text(text));
    let mut found: Vec<Option<Ip>> = Vec::new();
    let mut i: usize = 0;
    while i < list.len()
        invariant
            read == texts(list@).map_values(|text: Seq<char>| ip_text(text)),
            i <= list.len(),
            found@ =~= read.take(i as int),
        decreases list.len() - i,
    {
        found.push(parse_ip(list[i]));
        i += 1;
    }
    assert(read.take(i as int) =~= read);
    keep_present(&found)
}

/// Reads the addresses that a file lists.
pub fn read_resolver_from_file(text: &str) -> (ips: Vec<Ip>)
    ensures
        ips@ == file_ips(text@),
{
    let found = lines_of(text);
    let ghost all = lines(text@);
    let mut cut: Vec<&str> = Vec::new();
    let mut i: usize = 0;
    while i < found.len()
        invariant
            all == texts(found@),
            i <= found.len(),
            texts(cut@) =~= all.take(i as int).map_values(|line: Seq<char>| trimmed(line)),
        decreases found.len() - i,
    {
        let ghost before = texts(cut@);
        cut.push(trim_text(found[i]));
        assert(texts(cut@) =~= before.push(trimmed(all[i as int])));
        assert(all.take(i + 1) =~= all.take(i as int).push(all[i as int]));
        i += 1;
    }
    assert(all.take(i as int) =~= all);
    read_ips(&cut)
}

/// Settings that list a name server at each address, on the usual port.
pub fn configure(ips: &Vec<Ip>) -> (config: ResolverConfig)
    ensures
        config_servers(config) == udp_servers(ips@),
{
    let mut config = new_config();
    let mut i: usize = 0;
    while i < ips.len()
        invariant
            i <= ips.len(),
            config_servers(config) =~= udp_servers(ips@.take(i as int)),
        decreases ips.len() - i,
    {
        assert(ips@.take(i + 1) =~= ips@.take(i as int).push(ips@[i as int]));
        add_udp_server(&mut config, ips[i], DNS_PORT);
        i += 1;
    }
    assert(ips@.take(i as int) =~= ips@);
    config
}

/// Settles which name servers to ask.
///
/// Where the user named a resolver, it is the path of a file that lists the servers
/// (`file` is what that file holds, where it could be read), else the list itself.
/// Where not, the system's settings hold, and Cloudflare's servers where there are none.
pub fn get_resolver(resolver: &Option<String>, file: Option<&str>) -> (plan: ResolverPlan)
    ensures
        match resolver {
            Some(list) => plan matches ResolverPlan::Configured(config) && config_servers(config)
                == udp_servers(
                match file {
                    Some(text) => file_ips(text@),
                    None => comma_ips(list@),
                },
            ),
            None => plan matches ResolverPlan::SystemOr(config) && config_servers(config)
                == cloudflare_servers(),
        },
{
    match resolver {
        Some(list) => ResolverPlan::Configured(
            match file {
                Some(text) => configure(&read_resolver_from_file(text)),
                None => configure(&read_ips(&split_text(list.as_str(), ','))),
            },
        ),
        None => ResolverPlan::SystemOr(cloudflare_config()),
    }
}

} // verus!
