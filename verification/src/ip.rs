//! Addresses and networks as plain numbers.
use vstd::arithmetic::div_mod::{
    lemma_fundamental_div_mod, lemma_mod_bound, lemma_mod_decreases, lemma_mod_multiples_basic,
};
use vstd::arithmetic::power2::{lemma2_to64, lemma_pow2_adds, lemma_pow2_pos, pow2};
use vstd::prelude::*;

verus! {

/// An IP address, held as the number that its bits spell.
#[derive(Clone, Copy, Debug, PartialEq, Eq, Structural)]
pub enum Ip {
    /// An IPv4 address.
    V4(u32),
    /// An IPv6 address.
    V6(u128),
}

/// An address together with the prefix length of the network it lies in.
#[derive(Clone, Copy, Debug, PartialEq, Eq, Structural)]
pub struct Inet {
    /// The address, host bits and all.
    pub address: Ip,
    /// How many leading bits name the network.
    pub prefix: u8,
}

/// A network: its lowest address and its prefix length.
#[derive(Clone, Copy, Debug, PartialEq, Eq, Structural)]
pub struct Net {
    /// The lowest address; its host bits are zero.
    pub first: Ip,
    /// How many leading bits name the network.
    pub prefix: u8,
}

impl Ip {
    /// The number that the address's bits spell.
    pub open spec fn value(self) -> nat {
        match self {
            Ip::V4(bits) => bits as nat,
            Ip::V6(bits) => bits as nat,
        }
    }

    /// How many bits an address of this family has.
    pub open spec fn width(self) -> nat {
        match self {
            Ip::V4(_) => 32,
            Ip::V6(_) => 128,
        }
    }

    /// Whether both addresses are IPv4 or both are IPv6.
    pub open spec fn same_family(self, other: Ip) -> bool {
        self is V4 <==> other is V4
    }

    /// The address of the same family whose number is `n`.
    pub open spec fn with_value(self, n: nat) -> Ip {
        match self {
            Ip::V4(_) => Ip::V4(n as u32),
            Ip::V6(_) => Ip::V6(n as u128),
        }
    }
}

/// How many addresses a network has whose prefix leaves `width - prefix` host bits.
pub open spec fn block_size(width: nat, prefix: nat) -> nat {
    pow2((width - prefix) as nat)
}

impl Inet {
    /// The prefix is no longer than the address.
    pub open spec fn wf(self) -> bool {
        self.prefix <= self.address.width()
    }

    /// The network that the address lies in: the host bits are dropped.
    pub open spec fn network(self) -> Net {
        let size = block_size(self.address.width(), self.prefix as nat);
        let value = self.address.value();
        Net {
            first: self.address.with_value((value - value % size) as nat),
            prefix: self.prefix,
        }
    }
}

impl Net {
    /// The prefix is no longer than the address, and the host bits are zero.
    pub open spec fn wf(self) -> bool {
        &&& self.prefix <= self.first.width()
        &&& self.first.value() % self.size() == 0
    }

    /// How many addresses the network has.
    pub open spec fn size(self) -> nat {
        block_size(self.first.width(), self.prefix as nat)
    }

    /// Whether the address lies in the network.
    pub open spec fn contains(self, ip: Ip) -> bool {
        &&& self.first.same_family(ip)
        &&& self.first.value() <= ip.value() < self.first.value() + self.size()
    }

    /// The highest address of the network.
    pub open spec fn last(self) -> Ip {
        self.first.with_value((self.first.value() + self.size() - 1) as nat)
    }

    /// Every address of the network, in ascending order.
    pub open spec fn addresses(self) -> Seq<Ip> {
        Seq::new(
            self.size(),
            |i: int| self.first.with_value((self.first.value() + i) as nat),
        )
    }
}

/// The network that holds one address and nothing else.
pub open spec fn host_net(ip: Ip) -> Net {
    Net { first: ip, prefix: ip.width() as u8 }
}

/// Whether one of the networks holds the address.
pub open spec fn covered(nets: Seq<Net>, ip: Ip) -> bool {
    exists|i: int| 0 <= i < nets.len() && #[trigger] nets[i].contains(ip)
}

/// Every network in the list is well formed.
pub open spec fn all_wf(nets: Seq<Net>) -> bool {
    forall|i: int| 0 <= i < nets.len() ==> #[trigger] nets[i].wf()
}

/// An address's number fits its width.
pub proof fn lemma_value_bound(ip: Ip)
    ensures
        ip.value() < pow2(ip.width()),
{
    lemma2_to64();
    lemma_pow2_adds(64, 64);
    assert(0x1_0000_0000_0000_0000int * 0x1_0000_0000_0000_0000int
        == 0x1_0000_0000_0000_0000_0000_0000_0000_0000int) by (nonlinear_arith);
}

/// A number that fits the width is the number of its address.
pub proof fn lemma_with_value(ip: Ip, n: nat)
    requires
        n < pow2(ip.width()),
    ensures
        ip.with_value(n).value() == n,
        ip.same_family(ip.with_value(n)),
{
    lemma2_to64();
    lemma_pow2_adds(64, 64);
    assert(0x1_0000_0000_0000_0000int * 0x1_0000_0000_0000_0000int
        == 0x1_0000_0000_0000_0000_0000_0000_0000_0000int) by (nonlinear_arith);
}

/// A network has at least one address, and its addresses stay within the family.
pub proof fn lemma_net_bound(net: Net)
    requires
        net.wf(),
    ensures
        0 < net.size(),
        net.first.value() + net.size() <= pow2(net.first.width()),
{
    let size = net.size();
    let blocks = pow2(net.prefix as nat);
    let value = net.first.value();
    lemma_pow2_pos((net.first.width() - net.prefix) as nat);
    lemma_pow2_adds((net.first.width() - net.prefix) as nat, net.prefix as nat);
    lemma_value_bound(net.first);
    lemma_fundamental_div_mod(value as int, size as int);
    let k = value as int / size as int;
    assert(k < blocks) by (nonlinear_arith)
        requires
            value == size * k,
            value < size * blocks,
            size > 0,
    ;
    assert(value + size <= size * blocks) by (nonlinear_arith)
        requires
            value == size * k,
            k + 1 <= blocks,
            size > 0,
    ;
}

/// The network of an address is well formed and has the address's family.
pub proof fn lemma_network_wf(inet: Inet)
    requires
        inet.wf(),
    ensures
        inet.network().wf(),
        inet.network().first.same_family(inet.address),
        inet.network().contains(inet.address),
{
    let size = block_size(inet.address.width(), inet.prefix as nat);
    let value = inet.address.value();
    lemma_pow2_pos((inet.address.width() - inet.prefix) as nat);
    lemma_value_bound(inet.address);
    lemma_mod_bound(value as int, size as int);
    let low = (value - value % size) as nat;
    lemma_fundamental_div_mod(value as int, size as int);
    assert(value as int % size as int <= value) by {
        lemma_mod_decreases(value, size);
    }
    lemma_with_value(inet.address, low);
    lemma_mod_multiples_basic(value as int / size as int, size as int);
    assert(low == (value as int / size as int) * size) by (nonlinear_arith)
        requires
            low == value - value % size,
            value == size * (value as int / size as int) + value % size,
    ;
}

/// The network of a single address is well formed.
pub proof fn lemma_host_net(ip: Ip)
    ensures
        host_net(ip).wf(),
        host_net(ip).size() == 1,
{
    lemma2_to64();
}

} // verus!
