//! Which of the addresses that were found are scanned: each once, and none that is
//! excluded.
use std::collections::BTreeSet;
use vstd::prelude::*;

use crate::bindings::net_contains;
use crate::ip::{all_wf, covered, Ip, Net};

verus! {

/// The addresses that are left: the first occurrence of each, in the order in which
/// they came, without those that an excluded network holds.
pub open spec fn selected(ips: Seq<Ip>, excluded: Seq<Net>) -> Seq<Ip>
    decreases ips.len(),
{
    if ips.len() == 0 {
        Seq::empty()
    } else {
        let before = ips.drop_last();
        let ip = ips.last();
        if before.contains(ip) || covered(excluded, ip) {
            selected(before, excluded)
        } else {
            selected(before, excluded).push(ip)
        }
    }
}

/// The addresses that were met before.
pub(crate) struct Seen {
    v4: BTreeSet<u32>,
    v6: BTreeSet<u128>,
}

impl Seen {
    /// Whether the address was met before.
    pub(crate) closed spec fn has(self, ip: Ip) -> bool {
        match ip {
            Ip::V4(bits) => self.v4@.contains(bits),
            Ip::V6(bits) => self.v6@.contains(bits),
        }
    }

    /// How many addresses were met, each counted once.
    pub(crate) closed spec fn count(self) -> nat {
        self.v4@.len() + self.v6@.len()
    }

    /// Only so many addresses were met.
    pub(crate) closed spec fn wf(self) -> bool {
        self.v4@.finite() && self.v6@.finite()
    }

    /// No address was met yet.
    pub(crate) fn new() -> (seen: Seen)
        ensures
            seen.wf(),
            seen.count() == 0,
            forall|ip: Ip| !seen.has(ip),
    {
        Seen { v4: BTreeSet::new(), v6: BTreeSet::new() }
    }

    /// Meets an address, and says whether that was the first time.
    pub(crate) fn insert(&mut self, ip: Ip) -> (fresh: bool)
        requires
            old(self).wf(),
        ensures
            final(self).wf(),
            final(self).count() == old(self).count() + (if fresh {
                1nat
            } else {
                0
            }),
            fresh == !old(self).has(ip),
            forall|other: Ip| final(self).has(other) <==> other == ip || old(self).has(other),
    {
        broadcast use vstd::std_specs::btree::group_btree_axioms;
        broadcast use vstd::laws_cmp::group_laws_cmp;

        match ip {
            Ip::V4(bits) => self.v4.insert(bits),
            Ip::V6(bits) => self.v6.insert(bits),
        }
    }

    /// Forgets every address.
    pub(crate) fn clear(&mut self)
        ensures
            final(self).wf(),
            final(self).count() == 0,
            forall|ip: Ip| !final(self).has(ip),
    {
        self.v4.clear();
        self.v6.clear();
    }
}

/// Whether an excluded network holds the address.
pub(crate) fn is_excluded(excluded: &Vec<Net>, ip: Ip) -> (found: bool)
    requires
        all_wf(excluded@),
    ensures
        found == covered(excluded@, ip),
{
    let mut i: usize = 0;
    while i < excluded.len()
        invariant
            all_wf(excluded@),
            i <= excluded.len(),
            forall|j: int| 0 <= j < i ==> !(#[trigger] excluded@[j].contains(ip)),
        decreases excluded.len() - i,
    {
        assert(excluded@[i as int].wf());
        if net_contains(&excluded[i], ip) {
            return true;
        }
        i += 1;
    }
    false
}

/// Drops duplicates and excluded addresses.
pub fn select(ips: &Vec<Ip>, excluded: &Vec<Net>) -> (kept: Vec<Ip>)
    requires
        all_wf(excluded@),
    ensures
        kept@ == selected(ips@, excluded@),
{
    let mut kept: Vec<Ip> = Vec::new();
    let mut seen = Seen::new();
    let mut i: usize = 0;
    while i < ips.len()
        invariant
            all_wf(excluded@),
            i <= ips.len(),
            seen.wf(),
            forall|ip: Ip| #[trigger] seen.has(ip) <==> ips@.take(i as int).contains(ip),
            kept@ == selected(ips@.take(i as int), excluded@),
        decreases ips.len() - i,
    {
        let ip = ips[i];
        let ghost before = ips@.take(i as int);
        proof {
            assert(ips@.take(i + 1) =~= before.push(ip));
            assert(before.push(ip).drop_last() =~= before);
            assert forall|other: Ip| before.push(ip).contains(other) <==> other == ip
                || before.contains(other) by {
                assert(before.push(ip)[before.len() as int] == ip);
                if before.contains(other) {
                    let j = before.index_of(other);
                    assert(before.push(ip)[j] == other);
                }
            }
        }
        if seen.insert(ip) && !is_excluded(excluded, ip) {
            kept.push(ip);
        }
        i += 1;
    }
    assert(ips@.take(i as int) =~= ips@);
    kept
}

} // verus!
