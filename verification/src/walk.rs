//! Walking over addresses one at a time, without holding them all.
use vstd::prelude::*;

use crate::bindings::{last_address, network_of};
use crate::ip::{lemma_net_bound, lemma_network_wf, lemma_with_value, Inet, Ip, Net};

verus! {

/// Where the addresses of a walk come from.
enum Source {
    /// Addresses that are there already, from `position` on.
    List { ips: Vec<Ip>, position: usize },
    /// Every address from `next` to `last`.
    Range { next: Ip, last: Ip },
}

/// A walk over addresses that have not been handed out yet.
pub(crate) struct Walk {
    source: Source,
}

/// Every address from `next` to `last`, in ascending order.
pub(crate) open spec fn span(next: Ip, last: Ip) -> Seq<Ip> {
    Seq::new(
        (last.value() - next.value() + 1) as nat,
        |i: int| next.with_value((next.value() + i) as nat),
    )
}

/// The address right behind another.
fn successor(ip: Ip, Ghost(last): Ghost<Ip>) -> (next: Ip)
    requires
        ip.same_family(last),
        ip.value() < last.value(),
    ensures
        next.same_family(ip),
        next.value() == ip.value() + 1,
{
    match ip {
        Ip::V4(bits) => Ip::V4(bits + 1),
        Ip::V6(bits) => Ip::V6(bits + 1),
    }
}

impl Walk {
    /// A position lies within its list, or there is no list any more; and a range is not
    /// empty.
    pub(crate) closed spec fn wf(self) -> bool {
        match self.source {
            Source::List { ips, position } => position < ips@.len() || ips@.len() == position
                == 0,
            Source::Range { next, last } => next.same_family(last) && next.value()
                <= last.value(),
        }
    }

    /// The addresses that are still to come.
    pub(crate) closed spec fn remaining(self) -> Seq<Ip> {
        match self.source {
            Source::List { ips, position } => ips@.skip(position as int),
            Source::Range { next, last } => span(next, last),
        }
    }

    /// How many addresses the walk holds: those of a list, and none of a network, however
    /// many are still to come.
    pub(crate) closed spec fn stored(self) -> nat {
        match self.source {
            Source::List { ips, .. } => ips@.len(),
            Source::Range { .. } => 0,
        }
    }

    /// A walk at its end holds nothing.
    pub(crate) proof fn lemma_end(self)
        requires
            self.wf(),
            self.remaining().len() == 0,
        ensures
            self.stored() == 0,
    {
    }

    /// A walk over a list of addresses.
    pub(crate) fn over_list(ips: Vec<Ip>) -> (walk: Walk)
        ensures
            walk.wf(),
            walk.stored() == ips@.len(),
            walk.remaining() == ips@,
    {
        assert(ips@.skip(0) =~= ips@);
        Walk { source: Source::List { ips, position: 0 } }
    }

    /// A walk over the addresses of a network.
    pub(crate) fn over_net(net: Net) -> (walk: Walk)
        requires
            net.wf(),
        ensures
            walk.wf(),
            walk.remaining() == net.addresses(),
            walk.stored() == 0,
    {
        let last = last_address(net);
        proof {
            lemma_net_bound(net);
            lemma_with_value(net.first, (net.first.value() + net.size() - 1) as nat);
            assert(span(net.first, last) =~= net.addresses());
        }
        Walk { source: Source::Range { next: net.first, last } }
    }

    /// A walk over the network that an address lies in.
    pub(crate) fn over_inet(inet: Inet) -> (walk: Walk)
        requires
            inet.wf(),
        ensures
            walk.wf(),
            walk.remaining() == inet.network().addresses(),
            walk.stored() == 0,
    {
        proof {
            lemma_network_wf(inet);
        }
        Walk::over_net(network_of(inet))
    }

    /// Whether no address is still to come.
    pub(crate) fn is_empty(&self) -> (empty: bool)
        requires
            self.wf(),
        ensures
            empty == (self.remaining().len() == 0),
    {
        match &self.source {
            Source::List { ips, .. } => ips.len() == 0,
            Source::Range { .. } => false,
        }
    }

    /// Hands out the next address. A list is let go with its last address.
    pub(crate) fn next(&mut self) -> (ip: Option<Ip>)
        requires
            old(self).wf(),
        ensures
            final(self).wf(),
            final(self).stored() <= old(self).stored(),
            old(self).remaining().len() == 0 ==> ip is None && final(self).remaining() == old(
                self,
            ).remaining(),
            old(self).remaining().len() > 0 ==> ip == Some(old(self).remaining().first())
                && final(self).remaining() == old(self).remaining().drop_first(),
    {
        let ghost before = self.remaining();
        match &mut self.source {
            Source::List { ips, position } => {
                if *position == ips.len() {
                    return None;
                }
                let ip = ips[*position];
                if *position + 1 == ips.len() {
                    self.source = Source::List { ips: Vec::new(), position: 0 };
                } else {
                    *position += 1;
                }
                assert(self.remaining() =~= before.drop_first());
                Some(ip)
            },
            Source::Range { next, last } => {
                let ip = *next;
                let end = *last;
                if ip == end {
                    self.source = Source::List { ips: Vec::new(), position: 0 };
                } else {
                    *next = successor(ip, Ghost(end));
                }
                assert(self.remaining() =~= before.drop_first());
                Some(ip)
            },
        }
    }

    /// Hands out all the addresses at once.
    pub(crate) fn collect(self) -> (ips: Vec<Ip>)
        requires
            self.wf(),
        ensures
            ips@ == self.remaining(),
    {
        let ghost all = self.remaining();
        let mut walk = self;
        let mut ips: Vec<Ip> = Vec::new();
        loop
            invariant
                all == self.remaining(),
                walk.wf(),
                ips@ + walk.remaining() =~= all,
            decreases walk.remaining().len(),
        {
            match walk.next() {
                Some(ip) => ips.push(ip),
                None => {
                    assert(ips@ =~= all);
                    return ips;
                },
            }
        }
    }
}

} // verus!
