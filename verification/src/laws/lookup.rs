//! What a text stands for, and which lookups it takes to find out.
use vstd::arithmetic::div_mod::{lemma_fundamental_div_mod, lemma_fundamental_div_mod_converse};
use vstd::arithmetic::power2::pow2;
use vstd::prelude::*;

use crate::address::{exclusion_due, exclusion_nets};
use crate::bindings::{cidr_text, inet_text, ip_text};
use crate::ip::{host_net, lemma_host_net, lemma_net_bound, lemma_network_wf, Inet, Ip, Net};
use crate::lookup::{
    is_literal, recorded, request_due, text_ips, unasked, AnswerView, HostView, RequestView,
};

use super::law_network_addresses;

verus! {

/// Two addresses agree on their first bits: they are of one family, and nothing is left
/// to tell them apart once the host bits are dropped.
pub open spec fn same_prefix(one: Ip, other: Ip, prefix: u8) -> bool {
    &&& one is V4 <==> other is V4
    &&& one.value() / pow2((one.width() - prefix) as nat) == other.value() / pow2(
        (one.width() - prefix) as nat,
    )
}

/// A network contains the addresses that agree with its lowest one on the prefix.
pub proof fn law_network_prefix(net: Net, ip: Ip)
    requires
        net.wf(),
    ensures
        net.contains(ip) <==> same_prefix(net.first, ip, net.prefix),
{
    lemma_net_bound(net);
    let size = pow2((net.first.width() - net.prefix) as nat) as int;
    let low = net.first.value() as int;
    let value = ip.value() as int;
    let k = low / size;
    lemma_fundamental_div_mod(low, size);
    lemma_fundamental_div_mod(value, size);
    if low <= value < low + size {
        assert(value == k * size + (value - low)) by (nonlinear_arith)
            requires
                low == size * k,
        ;
        lemma_fundamental_div_mod_converse(value, size, k, value - low);
    }
    if value / size == k {
        assert(low <= value < low + size) by (nonlinear_arith)
            requires
                low == size * k,
                value == size * k + value % size,
                0 <= value % size < size,
        ;
    }
}

/// The network that an address with a prefix lies in contains the addresses that agree
/// with it on the prefix.
pub proof fn law_inet_prefix(inet: Inet, ip: Ip)
    requires
        inet.wf(),
    ensures
        inet.network().contains(ip) <==> same_prefix(inet.address, ip, inet.prefix),
{
    lemma_network_wf(inet);
    law_network_prefix(inet.network(), ip);
    law_network_prefix(inet.network(), inet.address);
}

/// A text that spells an address stands for that address, and nothing is looked up.
pub proof fn law_address(text: Seq<char>, host: HostView, ip: Ip)
    requires
        ip_text(text) == Some(ip),
    ensures
        text_ips(text, host) == seq![ip],
        request_due(text, host) is None,
{
}

/// A text that spells an address with a prefix, and is no address, stands for every
/// address that agrees on the prefix: each once, in ascending order, two to the number of
/// host bits of them. Nothing is looked up.
pub proof fn law_network(text: Seq<char>, host: HostView, inet: Inet)
    requires
        ip_text(text) is None,
        inet_text(text) == Some(inet),
        inet.wf(),
    ensures
        forall|ip: Ip| #[trigger]
            text_ips(text, host).contains(ip) <==> same_prefix(inet.address, ip, inet.prefix),
        forall|ip: Ip| #[trigger]
            text_ips(text, host).contains(ip) <==> inet.network().contains(ip),
        text_ips(text, host).no_duplicates(),
        forall|i: int, j: int|
            0 <= i < j < text_ips(text, host).len() ==> (#[trigger] text_ips(
                text,
                host,
            )[i]).value() < (#[trigger] text_ips(text, host)[j]).value(),
        text_ips(text, host).len() == pow2((inet.address.width() - inet.prefix) as nat),
        request_due(text, host) is None,
{
    lemma_network_wf(inet);
    law_network_addresses(inet.network());
    assert forall|ip: Ip| #[trigger] text_ips(text, host).contains(ip) <==> same_prefix(
        inet.address,
        ip,
        inet.prefix,
    ) by {
        law_inet_prefix(inet, ip);
        assert(inet.network().addresses().contains(ip) <==> inet.network().contains(ip));
    }
    assert forall|ip: Ip| #[trigger]
        text_ips(text, host).contains(ip) <==> inet.network().contains(ip) by {
        assert(inet.network().addresses().contains(ip) <==> inet.network().contains(ip));
    }
}

/// A text spells something where it reads as an address, with a prefix or without.
pub proof fn law_literal(text: Seq<char>)
    ensures
        is_literal(text) <==> ip_text(text) is Some || inet_text(text) is Some,
{
}

/// A host name that the system knows stands for the first address that the system gave,
/// whatever its family, and for no other; for none where it gave none. Nothing more is
/// looked up.
pub proof fn law_system_host(text: Seq<char>, host: HostView, ips: Seq<Ip>)
    requires
        ip_text(text) is None,
        inet_text(text) is None,
        host.system == AnswerView::Found(ips),
    ensures
        ips.len() > 0 ==> text_ips(text, host) == seq![ips[0]],
        ips.len() == 0 ==> text_ips(text, host) == Seq::<Ip>::empty(),
        request_due(text, host) is None,
{
}

/// A host name that the system does not know for the web port stands for all that the
/// first of the two other lookups to succeed gave, in its order; for nothing where both
/// failed.
pub proof fn law_other_host(text: Seq<char>, host: HostView, ips: Seq<Ip>)
    requires
        ip_text(text) is None,
        inet_text(text) is None,
        host.system == AnswerView::Failed,
    ensures
        host.verbatim == AnswerView::Found(ips) ==> text_ips(text, host) == ips && request_due(
            text,
            host,
        ) is None,
        host.verbatim == AnswerView::Failed && host.dedicated == AnswerView::Found(ips)
            ==> text_ips(text, host) == ips && request_due(text, host) is None,
        host.verbatim == AnswerView::Failed && host.dedicated == AnswerView::Failed ==> text_ips(
            text,
            host,
        ) == Seq::<Ip>::empty() && request_due(text, host) is None,
{
}

/// A host name is looked up at the system for the web port, then, where that failed, at
/// the system as it stands, then, where that failed too, at the dedicated resolver.
pub proof fn law_lookups_in_turn(text: Seq<char>, host: HostView)
    requires
        ip_text(text) is None,
        inet_text(text) is None,
    ensures
        host.system == AnswerView::Pending <==> request_due(text, host) == Some(
            RequestView::System(text + ":80"@),
        ),
        host.system == AnswerView::Failed && host.verbatim == AnswerView::Pending <==> request_due(
            text,
            host,
        ) == Some(RequestView::Verbatim(text)),
        host.system == AnswerView::Failed && host.verbatim == AnswerView::Failed && host.dedicated
            == AnswerView::Pending <==> request_due(text, host) == Some(
            RequestView::Dedicated(text),
        ),
{
}

/// What came of a lookup is what is on record for it, and nothing else on record changes.
pub proof fn law_recorded(host: HostView, name: Seq<char>, found: Option<Seq<Ip>>)
    ensures
        ({
            let system = recorded(host, RequestView::System(name), found);
            let verbatim = recorded(host, RequestView::Verbatim(name), found);
            let dedicated = recorded(host, RequestView::Dedicated(name), found);
            &&& found matches Some(ips) ==> {
                &&& system.system == AnswerView::Found(ips)
                &&& verbatim.verbatim == AnswerView::Found(ips)
                &&& dedicated.dedicated == AnswerView::Found(ips)
            }
            &&& found is None ==> {
                &&& system.system == AnswerView::Failed
                &&& verbatim.verbatim == AnswerView::Failed
                &&& dedicated.dedicated == AnswerView::Failed
            }
            &&& system.verbatim == host.verbatim && system.dedicated == host.dedicated
            &&& verbatim.system == host.system && verbatim.dedicated == host.dedicated
            &&& dedicated.system == host.system && dedicated.verbatim == host.verbatim
        }),
        unasked().system == AnswerView::Pending,
        unasked().verbatim == AnswerView::Pending,
        unasked().dedicated == AnswerView::Pending,
{
}

/// The network for a single address contains that address and no other.
pub proof fn law_host_net(ip: Ip, other: Ip)
    ensures
        host_net(ip).wf(),
        host_net(ip).contains(other) <==> other == ip,
{
    lemma_host_net(ip);
}

/// An exclusion that spells a network stands for that network, and nothing is looked up.
pub proof fn law_excluded_as_network(text: Seq<char>, host: HostView, net: Net)
    requires
        cidr_text(text) == Some(net),
    ensures
        exclusion_nets(text, host) == seq![net],
        exclusion_due(text, host) is None,
{
}

/// The networks hold one address each: these, in their order.
pub open spec fn one_each(nets: Seq<Net>, ips: Seq<Ip>) -> bool {
    &&& nets.len() == ips.len()
    &&& forall|i: int, other: Ip|
        0 <= i < nets.len() ==> (#[trigger] nets[i].contains(other) <==> other == ips[i])
}

/// An exclusion that spells an address, and is no network, stands for a network with that
/// address and no other. Nothing is looked up.
pub proof fn law_excluded_as_address(text: Seq<char>, host: HostView, ip: Ip)
    requires
        cidr_text(text) is None,
        ip_text(text) == Some(ip),
    ensures
        one_each(exclusion_nets(text, host), seq![ip]),
        exclusion_due(text, host) is None,
{
    assert forall|i: int, other: Ip| 0 <= i < 1 implies (#[trigger] exclusion_nets(
        text,
        host,
    )[i].contains(other) <==> other == seq![ip][i]) by {
        law_host_net(ip, other);
    }
}

/// An exclusion that spells nothing is a host name. It is looked up at the system as it
/// stands, then, where that failed, at the dedicated resolver; it stands for networks with
/// one address each, of all that the first lookup to succeed gave.
pub proof fn law_excluded_as_host(text: Seq<char>, host: HostView, ips: Seq<Ip>)
    requires
        cidr_text(text) is None,
        ip_text(text) is None,
    ensures
        host.verbatim == AnswerView::Pending <==> exclusion_due(text, host) == Some(
            RequestView::Verbatim(text),
        ),
        host.verbatim == AnswerView::Failed && host.dedicated == AnswerView::Pending
            <==> exclusion_due(text, host) == Some(RequestView::Dedicated(text)),
        host.verbatim == AnswerView::Found(ips) ==> one_each(exclusion_nets(text, host), ips)
            && exclusion_due(text, host) is None,
        host.verbatim == AnswerView::Failed && host.dedicated == AnswerView::Found(ips)
            ==> one_each(exclusion_nets(text, host), ips) && exclusion_due(text, host) is None,
        host.verbatim == AnswerView::Failed && host.dedicated == AnswerView::Failed
            ==> exclusion_nets(text, host) == Seq::<Net>::empty() && exclusion_due(text, host)
            is None,
{
    let nets = exclusion_nets(text, host);
    if host.verbatim == AnswerView::Found(ips) || host.verbatim == AnswerView::Failed
        && host.dedicated == AnswerView::Found(ips) {
        assert forall|i: int, other: Ip| 0 <= i < nets.len() implies (#[trigger] nets[i].contains(
            other,
        ) <==> other == ips[i]) by {
            law_host_net(ips[i], other);
        }
    }
}

} // verus!
