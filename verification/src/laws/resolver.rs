//! What holds of the name servers that are asked.
use vstd::prelude::*;

use crate::bindings::{ip_text, NameServer, Transport};
use crate::ip::Ip;
use crate::resolver::{comma_ips, file_ips, ips_among, present, udp_servers};
use crate::text::{lines, trimmed};

use super::text::{law_split, pieces_of};

verus! {

/// The positions are those at which there is something, each once and in their order.
pub open spec fn picks<T>(at: Seq<int>, found: Seq<Option<T>>) -> bool {
    &&& forall|j: int| 0 <= j < at.len() ==> 0 <= #[trigger] at[j] < found.len()
    &&& forall|j: int| 0 <= j < at.len() ==> found[#[trigger] at[j]] is Some
    &&& forall|j: int, k: int| 0 <= j < k < at.len() ==> #[trigger] at[j] < #[trigger] at[k]
    &&& forall|i: int|
        0 <= i < found.len() && #[trigger] found[i] is Some ==> exists|j: int|
            0 <= j < at.len() && #[trigger] at[j] == i
}

/// Every address that is there is kept, in its place in the order, and nothing else is.
pub proof fn law_present(found: Seq<Option<Ip>>) -> (at: Seq<int>)
    ensures
        picks(at, found),
        present(found).len() == at.len(),
        forall|j: int| 0 <= j < at.len() ==> Some(#[trigger] present(found)[j]) == found[at[j]],
    decreases found.len(),
{
    if found.len() == 0 {
        Seq::empty()
    } else {
        let before = found.drop_last();
        let fewer = law_present(before);
        let last = found.len() - 1;
        let at = if found[last] is Some {
            fewer.push(last)
        } else {
            fewer
        };
        assert forall|j: int| 0 <= j < at.len() implies 0 <= #[trigger] at[j] < found.len()
            && found[at[j]] is Some && Some(present(found)[j]) == found[at[j]] by {
            if j < fewer.len() {
                assert(at[j] == fewer[j]);
                assert(before[fewer[j]] == found[fewer[j]]);
                assert(present(found)[j] == present(before)[j]);
            }
        }
        assert forall|j: int, k: int| 0 <= j < k < at.len() implies #[trigger] at[j]
            < #[trigger] at[k] by {
            assert(at[j] == fewer[j]);
            if k < fewer.len() {
                assert(at[k] == fewer[k]);
            }
        }
        assert forall|i: int| 0 <= i < found.len() && #[trigger] found[i] is Some implies exists|
            j: int,
        | 0 <= j < at.len() && #[trigger] at[j] == i by {
            if i < last {
                assert(before[i] is Some);
                let j = choose|j: int| 0 <= j < fewer.len() && #[trigger] fewer[j] == i;
                assert(at[j] == i);
            } else {
                assert(at[fewer.len() as int] == i);
            }
        }
        at
    }
}

/// What the texts read as, one by one.
pub open spec fn readings(texts: Seq<Seq<char>>) -> Seq<Option<Ip>> {
    Seq::new(texts.len(), |i: int| ip_text(texts[i]))
}

/// There is a server for each text that spells an address, at that address, asked by
/// datagram on port 53; in the order of the texts, and none besides.
pub open spec fn serves(servers: Seq<NameServer>, texts: Seq<Seq<char>>, at: Seq<int>) -> bool {
    &&& picks(at, readings(texts))
    &&& servers.len() == at.len()
    &&& forall|j: int|
        0 <= j < at.len() ==> {
            &&& ip_text(texts[at[j]]) == Some((#[trigger] servers[j]).ip)
            &&& servers[j].port == 53
            &&& servers[j].transport == Transport::Udp
        }
}

/// Addresses among texts become servers, each of them.
proof fn lemma_serves(texts: Seq<Seq<char>>) -> (at: Seq<int>)
    ensures
        serves(udp_servers(ips_among(texts)), texts, at),
{
    let found = readings(texts);
    assert(found =~= texts.map_values(|text: Seq<char>| ip_text(text)));
    let at = law_present(found);
    let servers = udp_servers(ips_among(texts));
    assert forall|j: int| 0 <= j < at.len() implies {
        &&& ip_text(texts[at[j]]) == Some((#[trigger] servers[j]).ip)
        &&& servers[j].port == 53
        &&& servers[j].transport == Transport::Udp
    } by {
        assert(servers[j].ip == present(found)[j]);
        assert(found[at[j]] == ip_text(texts[at[j]]));
    }
    at
}

/// There is a server for each address, in their order, asked by datagram on port 53.
pub proof fn law_servers(ips: Seq<Ip>, i: int)
    ensures
        udp_servers(ips).len() == ips.len(),
        0 <= i < ips.len() ==> udp_servers(ips)[i].ip == ips[i] && udp_servers(ips)[i].port == 53
            && udp_servers(ips)[i].transport == Transport::Udp,
{
}

/// Of a list between commas, every piece that spells an address is asked on port 53, in
/// the order of the pieces, and nobody else is.
pub proof fn law_resolver_list(text: Seq<char>, pieces: Seq<Seq<char>>) -> (at: Seq<int>)
    requires
        pieces_of(pieces, text, ','),
    ensures
        serves(udp_servers(comma_ips(text)), pieces, at),
{
    law_split(text, pieces, ',');
    lemma_serves(pieces)
}

/// Of a file, every line that spells an address, but for the white space around it, is
/// asked on port 53, in the order of the lines, and nobody else is.
pub proof fn law_resolver_file(text: Seq<char>) -> (at: Seq<int>)
    ensures
        serves(
            udp_servers(file_ips(text)),
            Seq::new(lines(text).len(), |i: int| trimmed(lines(text)[i])),
            at,
        ),
{
    let cut = Seq::new(lines(text).len(), |i: int| trimmed(lines(text)[i]));
    assert(cut =~= lines(text).map_values(|line: Seq<char>| trimmed(line)));
    lemma_serves(cut)
}

} // verus!
