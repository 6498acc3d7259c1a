//! What holds of the library as a whole.
//!
//! The laws on chunks and on how both ways of reading the targets agree are here; those on
//! what each part of the input stands for are in the modules below.
use vstd::arithmetic::div_mod::{lemma_fundamental_div_mod, lemma_fundamental_div_mod_converse};
use vstd::arithmetic::power2::pow2;
use vstd::prelude::*;

use crate::address::{
    addresses_due, argument_ips, arguments_due, excluded_nets, exclusion_due, exclusions_due,
    file_ips, files_due, files_ips, gathered, line_due, lines_due, lines_ips, parsed, AnswersView,
    FileView, LineView, NeedView,
};
use crate::bindings::{cidr_text, ip_text};
use crate::chunk::{capacity, chunking, chunks, count, joined};
use crate::ip::{
    covered, lemma_net_bound, lemma_network_wf, lemma_value_bound, lemma_with_value, Inet, Ip, Net,
};
use crate::lookup::{
    is_literal, lemma_literal_nonempty, recorded, request_due, text_ips, HostView,
};
use crate::select::selected;
use crate::stream::{
    answers_within, known_arguments, known_file, known_files, known_ips, known_lines, stream_due,
    stream_files_due, stream_line_ips, stream_lines_due, AddressStream, StreamFile, StreamLine,
    Transcript,
};
use crate::text::trimmed;

pub mod chunks;
pub mod lookup;
pub mod resolver;
pub mod stream;
pub mod targets;
pub mod text;
pub mod values;

verus! {

/// Pushing an item adds it to what a sequence contains, and nothing else.
proof fn lemma_push_contains(s: Seq<Ip>, x: Ip)
    ensures
        forall|y: Ip| #[trigger] s.push(x).contains(y) <==> y == x || s.contains(y),
{
    assert forall|y: Ip| #[trigger] s.push(x).contains(y) <==> y == x || s.contains(y) by {
        assert(s.push(x)[s.len() as int] == x);
        if s.contains(y) {
            let i = s.index_of(y);
            assert(s.push(x)[i] == y);
        }
    }
}

/// The addresses that are left are those that were found and that no excluded network
/// holds.
pub proof fn law_selection_members(ips: Seq<Ip>, excluded: Seq<Net>, ip: Ip)
    ensures
        selected(ips, excluded).contains(ip) <==> ips.contains(ip) && !covered(excluded, ip),
    decreases ips.len(),
{
    if ips.len() > 0 {
        let before = ips.drop_last();
        law_selection_members(before, excluded, ip);
        law_selection_members(before, excluded, ips.last());
        lemma_push_contains(before, ips.last());
        lemma_push_contains(selected(before, excluded), ips.last());
        assert(ips =~= before.push(ips.last()));
    }
}

/// Each address that is left is left once.
pub proof fn law_selection_distinct(ips: Seq<Ip>, excluded: Seq<Net>)
    ensures
        selected(ips, excluded).no_duplicates(),
    decreases ips.len(),
{
    if ips.len() > 0 {
        let before = ips.drop_last();
        law_selection_distinct(before, excluded);
        law_selection_members(before, excluded, ips.last());
        let kept = selected(before, excluded);
        if !kept.contains(ips.last()) {
            let more = kept.push(ips.last());
            assert forall|i: int, j: int|
                0 <= i < more.len() && 0 <= j < more.len() && i != j implies more[i] != more[j] by {
                if i == kept.len() {
                    assert(kept.contains(kept[j]));
                }
                if j == kept.len() {
                    assert(kept.contains(kept[i]));
                }
            }
        }
    }
}

/// Position `a` is where the address comes first.
pub open spec fn first_at(ips: Seq<Ip>, ip: Ip, a: int) -> bool {
    &&& 0 <= a < ips.len()
    &&& ips[a] == ip
    &&& forall|c: int| 0 <= c < a ==> ips[c] != ip
}

/// An address that a sequence contains has a place where it comes first.
proof fn lemma_first_at(ips: Seq<Ip>, ip: Ip) -> (a: int)
    requires
        ips.contains(ip),
    ensures
        first_at(ips, ip, a),
    decreases ips.len(),
{
    let before = ips.drop_last();
    if before.contains(ip) {
        let a = lemma_first_at(before, ip);
        assert forall|c: int| 0 <= c < a implies ips[c] != ip by {
            assert(ips[c] == before[c]);
        }
        a
    } else {
        let a = ips.len() - 1;
        let i = ips.index_of(ip);
        if i < a {
            assert(before[i] == ip);
        }
        assert forall|c: int| 0 <= c < a implies ips[c] != ip by {
            assert(ips[c] == before[c]);
            assert(before.contains(before[c]));
        }
        a
    }
}

/// The addresses that are left come in the order in which they were first found.
pub proof fn law_selection_order(ips: Seq<Ip>, excluded: Seq<Net>, i: int, j: int)
    requires
        0 <= i < j < selected(ips, excluded).len(),
    ensures
        exists|a: int, b: int|
            a < b && #[trigger] first_at(ips, selected(ips, excluded)[i], a) && #[trigger] first_at(
                ips,
                selected(ips, excluded)[j],
                b,
            ),
    decreases ips.len(),
{
    let before = ips.drop_last();
    let kept = selected(before, excluded);
    let all = selected(ips, excluded);
    if j < kept.len() {
        law_selection_order(before, excluded, i, j);
        let (a, b) = choose|a: int, b: int|
            a < b && #[trigger] first_at(before, kept[i], a) && #[trigger] first_at(
                before,
                kept[j],
                b,
            );
        assert(first_at(ips, all[i], a)) by {
            assert forall|c: int| 0 <= c < a implies ips[c] != all[i] by {
                assert(ips[c] == before[c]);
            }
        }
        assert(first_at(ips, all[j], b)) by {
            assert forall|c: int| 0 <= c < b implies ips[c] != all[j] by {
                assert(ips[c] == before[c]);
            }
        }
    } else {
        law_selection_members(before, excluded, kept[i]);
        assert(kept.contains(kept[i]));
        let a = lemma_first_at(before, kept[i]);
        let b = ips.len() - 1;
        assert(first_at(ips, all[i], a)) by {
            assert forall|c: int| 0 <= c < a implies ips[c] != all[i] by {
                assert(ips[c] == before[c]);
            }
        }
        assert(first_at(ips, all[j], b)) by {
            assert forall|c: int| 0 <= c < b implies ips[c] != all[j] by {
                assert(ips[c] == before[c]);
                assert(before.contains(before[c]));
            }
        }
    }
}

/// Where there is neither a duplicate nor an excluded address, everything is left.
pub proof fn law_selection_of_clean(ips: Seq<Ip>, excluded: Seq<Net>)
    requires
        ips.no_duplicates(),
        forall|i: int| 0 <= i < ips.len() ==> !covered(excluded, #[trigger] ips[i]),
    ensures
        selected(ips, excluded) == ips,
    decreases ips.len(),
{
    if ips.len() > 0 {
        let before = ips.drop_last();
        assert forall|i: int| 0 <= i < before.len() implies !covered(
            excluded,
            #[trigger] before[i],
        ) by {
            assert(before[i] == ips[i]);
        }
        law_selection_of_clean(before, excluded);
        if before.contains(ips.last()) {
            let i = before.index_of(ips.last());
            assert(ips[i] == ips[ips.len() - 1]);
        }
        assert(!covered(excluded, ips[ips.len() - 1]));
        assert(ips =~= before.push(ips.last()));
    }
}

/// Selecting a second time changes nothing.
pub proof fn law_selection_idempotent(ips: Seq<Ip>, excluded: Seq<Net>)
    ensures
        selected(selected(ips, excluded), excluded) == selected(ips, excluded),
{
    let kept = selected(ips, excluded);
    law_selection_distinct(ips, excluded);
    assert forall|i: int| 0 <= i < kept.len() implies !covered(excluded, #[trigger] kept[i]) by {
        assert(kept.contains(kept[i]));
        law_selection_members(ips, excluded, kept[i]);
    }
    law_selection_of_clean(kept, excluded);
}

/// Addresses that were found before add nothing.
pub proof fn law_repeats_add_nothing(ips: Seq<Ip>, again: Seq<Ip>, excluded: Seq<Net>)
    requires
        forall|i: int| 0 <= i < again.len() ==> ips.contains(#[trigger] again[i]),
    ensures
        selected(ips + again, excluded) == selected(ips, excluded),
    decreases again.len(),
{
    if again.len() == 0 {
        assert(ips + again =~= ips);
    } else {
        let fewer = again.drop_last();
        assert forall|i: int| 0 <= i < fewer.len() implies ips.contains(#[trigger] fewer[i]) by {
            assert(fewer[i] == again[i]);
        }
        law_repeats_add_nothing(ips, fewer, excluded);
        let all = ips + again;
        assert(all.drop_last() =~= ips + fewer);
        assert(ips.contains(again[again.len() - 1]));
        let i = ips.index_of(all.last());
        assert((ips + fewer)[i] == all.last());
    }
}

/// A network has as many addresses as its host bits allow, each of them once, and they
/// are those that it contains.
pub proof fn law_network_addresses(net: Net)
    requires
        net.wf(),
    ensures
        net.addresses().len() == pow2((net.first.width() - net.prefix) as nat),
        net.addresses().no_duplicates(),
        forall|ip: Ip| #[trigger] net.addresses().contains(ip) <==> net.contains(ip),
        forall|i: int, j: int|
            0 <= i < j < net.addresses().len() ==> (#[trigger] net.addresses()[i]).value() < (
            #[trigger] net.addresses()[j]).value(),
{
    lemma_net_bound(net);
    let all = net.addresses();
    assert forall|i: int| 0 <= i < all.len() implies (#[trigger] all[i]).value()
        == net.first.value() + i && net.first.same_family(all[i]) by {
        lemma_with_value(net.first, (net.first.value() + i) as nat);
    }
    assert forall|ip: Ip| #[trigger] all.contains(ip) <==> net.contains(ip) by {
        if all.contains(ip) {
            let i = all.index_of(ip);
            assert(all[i] == ip);
        }
        if net.contains(ip) {
            let i = ip.value() - net.first.value();
            assert(all[i].value() == ip.value());
            assert(all[i] == ip);
        }
    }
}

/// A network contains the address that it was read from, and reading any other of its
/// addresses with the same prefix gives the same network: host bits do not matter.
pub proof fn law_host_bits_ignored(inet: Inet, other: Ip)
    requires
        inet.wf(),
        inet.network().contains(other),
    ensures
        inet.network().contains(inet.address),
        (Inet { address: other, prefix: inet.prefix }).network() == inet.network(),
{
    lemma_network_wf(inet);
    let net = inet.network();
    lemma_net_bound(net);
    let size = net.size() as int;
    let low = net.first.value() as int;
    let value = other.value() as int;
    lemma_fundamental_div_mod(low, size);
    let k = low / size;
    assert(value % size == value - low) by {
        assert(value == k * size + (value - low)) by (nonlinear_arith)
            requires
                low == size * k,
        ;
        lemma_fundamental_div_mod_converse(
            value,
            size,
            k,
            value - low,
        );
    }
    lemma_value_bound(other);
    lemma_with_value(other, low as nat);
    lemma_with_value(inet.address, low as nat);
}

/// Excluding a network leaves nothing of it.
pub proof fn law_excluded_network(net: Net, excluded: Seq<Net>)
    requires
        net.wf(),
        excluded.contains(net),
    ensures
        selected(net.addresses(), excluded) == Seq::<Ip>::empty(),
{
    law_network_addresses(net);
    let kept = selected(net.addresses(), excluded);
    if kept.len() > 0 {
        assert(kept.contains(kept[0]));
        law_selection_members(net.addresses(), excluded, kept[0]);
        let i = excluded.index_of(net);
        assert(excluded[i].contains(kept[0]));
    }
}

/// A network inside one that came before adds nothing.
pub proof fn law_nested_network(outer: Net, inner: Net)
    requires
        outer.wf(),
        inner.wf(),
        forall|ip: Ip| inner.contains(ip) ==> outer.contains(ip),
    ensures
        selected(outer.addresses() + inner.addresses(), Seq::empty()) == outer.addresses(),
{
    law_network_addresses(outer);
    law_network_addresses(inner);
    let none = Seq::<Net>::empty();
    assert forall|i: int| 0 <= i < inner.addresses().len() implies outer.addresses().contains(
        #[trigger] inner.addresses()[i],
    ) by {
        assert(inner.addresses().contains(inner.addresses()[i]));
    }
    law_repeats_add_nothing(outer.addresses(), inner.addresses(), none);
    law_selection_of_clean(outer.addresses(), none);
}

/// What a chunk may hold: addresses that were offered and not excluded, each once.
pub open spec fn clean(chunk: Seq<Ip>, ips: Seq<Ip>, excluded: Seq<Net>) -> bool {
    &&& chunk.no_duplicates()
    &&& forall|k: int|
        0 <= k < chunk.len() ==> ips.contains(#[trigger] chunk[k]) && !covered(excluded, chunk[k])
}

/// Some chunk contains the address.
pub open spec fn in_some(chunks: Seq<Seq<Ip>>, ip: Ip) -> bool {
    exists|i: int| 0 <= i < chunks.len() && (#[trigger] chunks[i]).contains(ip)
}

/// A chunk stays clean when more addresses are offered.
proof fn lemma_clean_grows(chunk: Seq<Ip>, before: Seq<Ip>, ip: Ip, excluded: Seq<Net>)
    requires
        clean(chunk, before, excluded),
    ensures
        clean(chunk, before.push(ip), excluded),
{
    lemma_push_contains(before, ip);
    assert forall|k: int| 0 <= k < chunk.len() implies before.push(ip).contains(#[trigger] chunk[k])
        && !covered(excluded, chunk[k]) by {}
}

/// A chunk stays clean when an address joins that is neither in it nor excluded.
proof fn lemma_clean_push(chunk: Seq<Ip>, before: Seq<Ip>, ip: Ip, excluded: Seq<Net>)
    requires
        clean(chunk, before, excluded),
        !chunk.contains(ip),
        !covered(excluded, ip),
    ensures
        clean(chunk.push(ip), before.push(ip), excluded),
{
    lemma_push_contains(before, ip);
    let more = chunk.push(ip);
    assert forall|i: int, j: int|
        0 <= i < more.len() && 0 <= j < more.len() && i != j implies more[i] != more[j] by {
        if i == chunk.len() {
            assert(chunk.contains(chunk[j]));
        }
        if j == chunk.len() {
            assert(chunk.contains(chunk[i]));
        }
    }
    assert forall|k: int| 0 <= k < more.len() implies before.push(ip).contains(#[trigger] more[k])
        && !covered(excluded, more[k]) by {
        if k < chunk.len() {
            assert(more[k] == chunk[k]);
        }
    }
}

/// What holds of chunks while they are filled.
pub(super) proof fn lemma_chunking(ips: Seq<Ip>, excluded: Seq<Net>, size: nat)
    ensures
        chunking(ips, excluded, size).rest.len() < capacity(size),
        clean(chunking(ips, excluded, size).rest, ips, excluded),
        forall|i: int|
            0 <= i < chunking(ips, excluded, size).full.len() ==> (#[trigger] chunking(
                ips,
                excluded,
                size,
            ).full[i]).len() == capacity(size) && clean(
                chunking(ips, excluded, size).full[i],
                ips,
                excluded,
            ),
    decreases ips.len(),
{
    if ips.len() > 0 {
        let before = ips.drop_last();
        let ip = ips.last();
        lemma_chunking(before, excluded, size);
        assert(ips =~= before.push(ip));
        let old_cut = chunking(before, excluded, size);
        let cut = chunking(ips, excluded, size);
        lemma_clean_grows(old_cut.rest, before, ip, excluded);
        assert forall|i: int| 0 <= i < old_cut.full.len() implies clean(
            #[trigger] old_cut.full[i],
            ips,
            excluded,
        ) by {
            lemma_clean_grows(old_cut.full[i], before, ip, excluded);
        }
        if !old_cut.rest.contains(ip) && !covered(excluded, ip) {
            lemma_clean_push(old_cut.rest, before, ip, excluded);
        }
        assert forall|i: int| 0 <= i < cut.full.len() implies (#[trigger] cut.full[i]).len()
            == capacity(size) && clean(cut.full[i], ips, excluded) by {
            if i < old_cut.full.len() {
                assert(cut.full[i] == old_cut.full[i]);
            }
        }
    }
}

/// The chunk that is being filled never holds as many addresses as a full one.
pub proof fn law_pending_bounded(ips: Seq<Ip>, excluded: Seq<Net>, size: nat)
    ensures
        chunking(ips, excluded, size).rest.len() < capacity(size),
{
    lemma_chunking(ips, excluded, size);
}

/// No chunk is empty or holds more than the size asked for, and all but the last hold
/// just as many. Within a chunk there are no duplicates and no excluded addresses.
pub proof fn law_chunks_bounded(ips: Seq<Ip>, excluded: Seq<Net>, size: nat, i: int)
    requires
        0 <= i < chunks(ips, excluded, size).len(),
    ensures
        0 < chunks(ips, excluded, size)[i].len() <= capacity(size),
        i + 1 < chunks(ips, excluded, size).len() ==> chunks(ips, excluded, size)[i].len()
            == capacity(size),
        clean(chunks(ips, excluded, size)[i], ips, excluded),
{
    lemma_chunking(ips, excluded, size);
    let cut = chunking(ips, excluded, size);
    if i < cut.full.len() {
        assert(chunks(ips, excluded, size)[i] == cut.full[i]);
    }
}

/// Every address that was offered and is not excluded is in the chunk that is being
/// filled or in a full one.
proof fn lemma_chunking_members(ips: Seq<Ip>, excluded: Seq<Net>, size: nat, ip: Ip)
    requires
        ips.contains(ip),
        !covered(excluded, ip),
    ensures
        chunking(ips, excluded, size).rest.contains(ip) || in_some(
            chunking(ips, excluded, size).full,
            ip,
        ),
    decreases ips.len(),
{
    let before = ips.drop_last();
    let last = ips.last();
    let old_cut = chunking(before, excluded, size);
    let cut = chunking(ips, excluded, size);
    assert(ips =~= before.push(last));
    lemma_push_contains(before, last);
    lemma_push_contains(old_cut.rest, last);
    if before.contains(ip) {
        lemma_chunking_members(before, excluded, size, ip);
        if in_some(old_cut.full, ip) {
            let i = choose|i: int|
                0 <= i < old_cut.full.len() && (#[trigger] old_cut.full[i]).contains(ip);
            assert(cut.full[i].contains(ip));
        } else if !cut.rest.contains(ip) {
            assert(cut.full[cut.full.len() - 1].contains(ip));
        }
    } else {
        if !cut.rest.contains(ip) {
            assert(cut.full[cut.full.len() - 1].contains(ip));
        }
    }
}

/// The chunks together hold the same addresses as the selection: those that were
/// offered and that no excluded network holds.
pub proof fn law_chunks_members(ips: Seq<Ip>, excluded: Seq<Net>, size: nat, ip: Ip)
    ensures
        in_some(chunks(ips, excluded, size), ip) <==> selected(ips, excluded).contains(ip),
        in_some(chunks(ips, excluded, size), ip) <==> ips.contains(ip) && !covered(excluded, ip),
{
    law_selection_members(ips, excluded, ip);
    let all = chunks(ips, excluded, size);
    let cut = chunking(ips, excluded, size);
    if in_some(all, ip) {
        let i = choose|i: int| 0 <= i < all.len() && (#[trigger] all[i]).contains(ip);
        law_chunks_bounded(ips, excluded, size, i);
        let k = all[i].index_of(ip);
        assert(all[i][k] == ip);
    }
    if ips.contains(ip) && !covered(excluded, ip) {
        lemma_chunking_members(ips, excluded, size, ip);
        if cut.rest.contains(ip) {
            assert(cut.rest.len() > 0);
            assert(all[cut.full.len() as int].contains(ip));
        } else {
            let i = choose|i: int| 0 <= i < cut.full.len() && (#[trigger] cut.full[i]).contains(ip);
            assert(all[i].contains(ip));
        }
    }
}

/// The full chunks and the one that is being filled hold the selection in its order.
proof fn lemma_chunking_order(ips: Seq<Ip>, excluded: Seq<Net>, size: nat)
    ensures
        selected(
            joined(chunking(ips, excluded, size).full) + chunking(ips, excluded, size).rest,
            Seq::empty(),
        ) == selected(ips, excluded),
    decreases ips.len(),
{
    let none = Seq::<Net>::empty();
    let cut = chunking(ips, excluded, size);
    let all = joined(cut.full) + cut.rest;
    if ips.len() == 0 {
        assert(all =~= Seq::<Ip>::empty());
    } else {
        let before = ips.drop_last();
        let ip = ips.last();
        lemma_chunking_order(before, excluded, size);
        lemma_chunking(before, excluded, size);
        let old_cut = chunking(before, excluded, size);
        let old_all = joined(old_cut.full) + old_cut.rest;
        if old_cut.rest.contains(ip) {
            let k = old_cut.rest.index_of(ip);
            assert(before.contains(old_cut.rest[k]));
        } else if !covered(excluded, ip) {
            law_selection_members(old_all, none, ip);
            law_selection_members(before, excluded, ip);
            let filled = old_cut.full.push(old_cut.rest.push(ip));
            assert(filled.drop_last() =~= old_cut.full);
            assert(all =~= old_all.push(ip));
            assert(all.drop_last() =~= old_all);
        }
    }
}

/// The chunks hold the addresses in the order of the selection: the first occurrences in
/// all the chunks together are the selection.
pub proof fn law_chunks_order(ips: Seq<Ip>, excluded: Seq<Net>, size: nat)
    ensures
        selected(joined(chunks(ips, excluded, size)), Seq::empty()) == selected(ips, excluded),
{
    lemma_chunking_order(ips, excluded, size);
    let cut = chunking(ips, excluded, size);
    assert(cut.full.push(cut.rest).drop_last() =~= cut.full);
    assert(joined(chunks(ips, excluded, size)) =~= joined(cut.full) + cut.rest);
}

/// The selection of fewer addresses is no longer.
proof fn lemma_selection_shrinks(ips: Seq<Ip>, excluded: Seq<Net>)
    requires
        ips.len() > 0,
    ensures
        selected(ips.drop_last(), excluded).len() <= selected(ips, excluded).len(),
{
}

/// Where fewer addresses are left than fill a chunk, there is one chunk, and it is the
/// selection.
pub proof fn law_single_chunk(ips: Seq<Ip>, excluded: Seq<Net>, size: nat)
    requires
        selected(ips, excluded).len() < size,
    ensures
        chunks(ips, excluded, size) == if selected(ips, excluded).len() > 0 {
            seq![selected(ips, excluded)]
        } else {
            Seq::empty()
        },
{
    lemma_single_chunk(ips, excluded, size);
    assert(chunks(ips, excluded, size) =~= if selected(ips, excluded).len() > 0 {
        seq![selected(ips, excluded)]
    } else {
        Seq::empty()
    });
}

/// Until a chunk is full, the chunk that is being filled is the selection.
proof fn lemma_single_chunk(ips: Seq<Ip>, excluded: Seq<Net>, size: nat)
    requires
        selected(ips, excluded).len() < size,
    ensures
        chunking(ips, excluded, size).full == Seq::<Seq<Ip>>::empty(),
        chunking(ips, excluded, size).rest == selected(ips, excluded),
    decreases ips.len(),
{
    if ips.len() > 0 {
        lemma_selection_shrinks(ips, excluded);
        lemma_single_chunk(ips.drop_last(), excluded, size);
        law_selection_members(ips.drop_last(), excluded, ips.last());
    }
}

/// How many addresses the chunks that are being filled and that are full hold.
proof fn lemma_chunking_count(ips: Seq<Ip>, excluded: Seq<Net>, size: nat)
    ensures
        selected(ips, excluded).len() <= count(chunking(ips, excluded, size).full) + chunking(
            ips,
            excluded,
            size,
        ).rest.len() <= ips.len(),
    decreases ips.len(),
{
    if ips.len() > 0 {
        let before = ips.drop_last();
        let ip = ips.last();
        lemma_chunking_count(before, excluded, size);
        lemma_chunking(before, excluded, size);
        let old_cut = chunking(before, excluded, size);
        let filled = old_cut.full.push(old_cut.rest.push(ip));
        assert(filled.drop_last() =~= old_cut.full);
        if old_cut.rest.contains(ip) {
            let k = old_cut.rest.index_of(ip);
            assert(before.contains(old_cut.rest[k]));
        }
    }
}

/// The total over all chunks is at least the number of distinct addresses and at most
/// the number of addresses that were offered.
pub proof fn law_total_bounded(ips: Seq<Ip>, excluded: Seq<Net>, size: nat)
    ensures
        selected(ips, excluded).len() <= count(chunks(ips, excluded, size)) <= ips.len(),
{
    lemma_chunking_count(ips, excluded, size);
    let cut = chunking(ips, excluded, size);
    assert(cut.full.push(cut.rest).drop_last() =~= cut.full);
}

/// How many of a name's lookups have not been made.
pub open spec fn pending(host: HostView) -> nat {
    (if host.system is Pending {
        1nat
    } else {
        0
    }) + (if host.verbatim is Pending {
        1nat
    } else {
        0
    }) + (if host.dedicated is Pending {
        1nat
    } else {
        0
    })
}

/// Making the lookup that is due leaves one fewer to make, so that a name is settled
/// after three lookups at most.
pub proof fn law_lookups_end(text: Seq<char>, host: HostView, found: Option<Seq<Ip>>)
    requires
        request_due(text, host) is Some,
    ensures
        pending(recorded(host, request_due(text, host)->0, found)) == pending(host) - 1,
{
}

/// A lookup that gives addresses settles the name.
pub proof fn law_success_settles(text: Seq<char>, host: HostView, ips: Seq<Ip>)
    requires
        request_due(text, host) is Some,
    ensures
        request_due(text, recorded(host, request_due(text, host)->0, Some(ips))) is None,
{
}

/// The lookups for an exclusion come to an end likewise: making the one that is due
/// leaves one fewer, and one that gives addresses settles the name.
pub proof fn law_exclusion_lookups_end(text: Seq<char>, host: HostView, found: Option<Seq<Ip>>)
    requires
        exclusion_due(text, host) is Some,
    ensures
        pending(recorded(host, exclusion_due(text, host)->0, found)) == pending(host) - 1,
        found is Some ==> exclusion_due(text, recorded(host, exclusion_due(text, host)->0, found))
            is None,
{
}

/// Where every target spells an address or a network, and every exclusion too, nothing
/// is looked up and no file is read.
pub proof fn law_literals_need_nothing(
    targets: Seq<Seq<char>>,
    exclusions: Seq<Seq<char>>,
    answers: AnswersView,
    told: Transcript,
)
    requires
        forall|i: int| 0 <= i < targets.len() ==> is_literal(#[trigger] targets[i]),
        forall|i: int|
            0 <= i < exclusions.len() ==> cidr_text(#[trigger] exclusions[i]) is Some || ip_text(
                exclusions[i],
            ) is Some,
    ensures
        addresses_due(targets, exclusions, answers) is None,
        exclusions_due(exclusions, answers.exclusions, 0) is None,
        stream_due(targets, told) is None,
{
    lemma_literal_arguments(targets, answers.arguments, 0);
    lemma_literal_arguments(targets, told.arguments, 0);
    lemma_literal_files(targets, answers, told, 0);
    lemma_literal_exclusions(exclusions, answers.exclusions, 0);
}

/// No lookup is due for a target that spells an address or a network.
proof fn lemma_literal_arguments(targets: Seq<Seq<char>>, hosts: Seq<HostView>, k: int)
    requires
        0 <= k <= targets.len(),
        forall|i: int| 0 <= i < targets.len() ==> is_literal(#[trigger] targets[i]),
    ensures
        arguments_due(targets, hosts, k) is None,
    decreases targets.len() - k,
{
    if k < targets.len() {
        assert(is_literal(targets[k]));
        lemma_literal_arguments(targets, hosts, k + 1);
    }
}

/// A target that spells an address or a network is not read as a file.
proof fn lemma_literal_files(
    targets: Seq<Seq<char>>,
    answers: AnswersView,
    told: Transcript,
    k: int,
)
    requires
        0 <= k <= targets.len(),
        forall|i: int| 0 <= i < targets.len() ==> is_literal(#[trigger] targets[i]),
    ensures
        files_due(targets, answers, k) is None,
        stream_files_due(targets, told, k) is None,
    decreases targets.len() - k,
{
    if k < targets.len() {
        lemma_literal_nonempty(targets[k], answers.arguments[k]);
        lemma_literal_nonempty(targets[k], told.arguments[k]);
        lemma_literal_files(targets, answers, told, k + 1);
    }
}

/// No lookup is due for an exclusion that spells a network or an address.
proof fn lemma_literal_exclusions(texts: Seq<Seq<char>>, hosts: Seq<HostView>, k: int)
    requires
        0 <= k <= texts.len(),
        forall|i: int|
            0 <= i < texts.len() ==> cidr_text(#[trigger] texts[i]) is Some || ip_text(
                texts[i],
            ) is Some,
    ensures
        exclusions_due(texts, hosts, k) is None,
    decreases texts.len() - k,
{
    if k < texts.len() {
        assert(cidr_text(texts[k]) is Some || ip_text(texts[k]) is Some);
        lemma_literal_exclusions(texts, hosts, k + 1);
    }
}

/// A line was read alike by both ways of reading a file: it could be read, and there is
/// no white space around it.
pub open spec fn lines_agree(whole: LineView, streamed: StreamLine) -> bool {
    &&& whole == (LineView::Text { text: streamed.text, host: streamed.host })
    &&& trimmed(streamed.text) == streamed.text
}

/// A target was treated alike as a file by both ways of reading the targets. One that
/// stands for an address by itself is read by neither; else both found no file, or the
/// same lines, and behind those at most some that could not be read.
pub open spec fn files_agree(
    target: Seq<char>,
    host: HostView,
    whole: FileView,
    streamed: StreamFile,
) -> bool {
    if text_ips(target, host).len() > 0 {
        true
    } else {
        match (whole, streamed) {
            (FileView::NotAFile, StreamFile::Absent) => true,
            (FileView::Unreadable, StreamFile::Absent) => true,
            (FileView::Lines(lines), StreamFile::Ended(read)) => {
                &&& read.len() <= lines.len()
                &&& forall|j: int| 0 <= j < read.len() ==> lines_agree(#[trigger] lines[j], read[j])
                &&& forall|j: int|
                    read.len() <= j < lines.len() ==> #[trigger] lines[j] == LineView::Unreadable
            },
            _ => false,
        }
    }
}

/// Lines that were read alike have the same lookups due and stand for the same
/// addresses.
proof fn lemma_lines_agree(lines: Seq<LineView>, read: Seq<StreamLine>, k: nat)
    requires
        read.len() <= lines.len(),
        k <= lines.len(),
        forall|j: int| 0 <= j < read.len() ==> lines_agree(#[trigger] lines[j], read[j]),
        forall|j: int|
            read.len() <= j < lines.len() ==> #[trigger] lines[j] == LineView::Unreadable,
    ensures
        lines_due(lines, k as int) == stream_lines_due(read, k as int),
        lines_due(lines, k as int) is None ==> lines_ips(lines, lines.len()) == lines_ips(lines, k)
            + known_lines(read, k as int),
    decreases lines.len() - k,
{
    if read.len() <= k < lines.len() {
        assert(lines[k as int] == LineView::Unreadable);
        lemma_lines_agree(lines, read, k + 1);
        assert(lines_ips(lines, k + 1) + known_lines(read, (k + 1) as int) =~= lines_ips(lines, k)
            + known_lines(read, k as int));
    } else if k < lines.len() {
        assert(lines_agree(lines[k as int], read[k as int]));
        lemma_lines_agree(lines, read, k + 1);
        assert(lines_ips(lines, k) + (stream_line_ips(read[k as int]) + known_lines(read, (k + 1) as int))
            =~= lines_ips(lines, k + 1) + known_lines(read, (k + 1) as int));
    } else {
        assert(lines_ips(lines, k) + known_lines(read, k as int) =~= lines_ips(lines, k));
    }
}

/// Targets of which nothing is due stand for the same addresses both ways.
proof fn lemma_arguments_agree(targets: Seq<Seq<char>>, hosts: Seq<HostView>, k: nat)
    requires
        k <= targets.len(),
        arguments_due(targets, hosts, k as int) is None,
    ensures
        argument_ips(targets, hosts, targets.len()) == argument_ips(targets, hosts, k)
            + known_arguments(targets, hosts, k as int),
    decreases targets.len() - k,
{
    if k < targets.len() {
        lemma_arguments_agree(targets, hosts, k + 1);
        assert(argument_ips(targets, hosts, k) + (text_ips(targets[k as int], hosts[k as int])
            + known_arguments(targets, hosts, (k + 1) as int)) =~= argument_ips(targets, hosts, k + 1)
            + known_arguments(targets, hosts, (k + 1) as int));
    } else {
        assert(argument_ips(targets, hosts, k) + known_arguments(targets, hosts, k as int)
            =~= argument_ips(targets, hosts, k));
    }
}

/// Targets that were treated alike as files stand for the same addresses both ways.
proof fn lemma_files_agree(
    targets: Seq<Seq<char>>,
    answers: AnswersView,
    told: Transcript,
    k: nat,
)
    requires
        k <= targets.len(),
        told.arguments == answers.arguments,
        stream_files_due(targets, told, k as int) is None,
        forall|i: int|
            0 <= i < targets.len() ==> files_agree(
                #[trigger] targets[i],
                answers.arguments[i],
                answers.files[i],
                told.files[i],
            ),
    ensures
        files_due(targets, answers, k as int) is None,
        files_ips(targets, answers, targets.len()) == files_ips(targets, answers, k) + known_files(
            targets,
            told,
            k as int,
        ),
    decreases targets.len() - k,
{
    if k < targets.len() {
        let target = targets[k as int];
        let host = answers.arguments[k as int];
        let whole = answers.files[k as int];
        let streamed = told.files[k as int];
        assert(files_agree(target, host, whole, streamed));
        if text_ips(target, host).len() == 0 {
            if let (FileView::Lines(lines), StreamFile::Ended(read)) = (whole, streamed) {
                lemma_lines_agree(lines, read, 0);
                assert(lines_ips(lines, 0) + known_lines(read, 0) =~= known_lines(read, 0));
            }
        }
        assert(file_ips(target, host, whole) =~= known_file(target, host, streamed));
        lemma_files_agree(targets, answers, told, k + 1);
        assert(files_ips(targets, answers, k) + (known_file(target, host, streamed)
            + known_files(targets, told, (k + 1) as int)) =~= files_ips(targets, answers, k + 1)
            + known_files(targets, told, (k + 1) as int));
    } else {
        assert(files_ips(targets, answers, k) + known_files(targets, told, k as int)
            =~= files_ips(targets, answers, k));
    }
}

/// The stream goes over the same addresses, in the same order, as are gathered at once,
/// where the names had the same answers and the files were treated alike.
pub proof fn law_stream_gathers_alike(
    targets: Seq<Seq<char>>,
    answers: AnswersView,
    told: Transcript,
)
    requires
        stream_due(targets, told) is None,
        told.arguments == answers.arguments,
        forall|i: int|
            0 <= i < targets.len() ==> files_agree(
                #[trigger] targets[i],
                answers.arguments[i],
                answers.files[i],
                told.files[i],
            ),
    ensures
        arguments_due(targets, answers.arguments, 0) is None,
        files_due(targets, answers, 0) is None,
        known_ips(targets, told) == gathered(targets, answers),
{
    lemma_arguments_due_at(targets, told.arguments, 0);
    lemma_arguments_agree(targets, answers.arguments, 0);
    lemma_files_agree(targets, answers, told, 0);
    assert(argument_ips(targets, answers.arguments, 0) + known_arguments(
        targets,
        answers.arguments,
        0,
    ) =~= known_arguments(targets, answers.arguments, 0));
    assert(files_ips(targets, answers, 0) + known_files(targets, told, 0) =~= known_files(
        targets,
        told,
        0,
    ));
}

/// A stream that is over has delivered the chunks of what is gathered at once; together
/// they hold just the addresses that are parsed at once, and their first occurrences
/// come in the same order. The names must have had the same answers, and the files must
/// have been treated alike.
pub proof fn law_stream_delivers_alike(
    stream: AddressStream,
    exclusions: Seq<Seq<char>>,
    answers: AnswersView,
    ip: Ip,
)
    requires
        stream.wf(),
        stream.over(),
        stream.excluded() == excluded_nets(exclusions, answers.exclusions, exclusions.len()),
        stream.transcript().arguments == answers.arguments,
        forall|i: int|
            0 <= i < stream.targets().len() ==> files_agree(
                #[trigger] stream.targets()[i],
                answers.arguments[i],
                answers.files[i],
                stream.transcript().files[i],
            ),
    ensures
        stream.delivered() == chunks(
            gathered(stream.targets(), answers),
            stream.excluded(),
            stream.size(),
        ),
        selected(joined(stream.delivered()), Seq::empty()) == parsed(
            stream.targets(),
            exclusions,
            answers,
        ),
        in_some(stream.delivered(), ip) <==> parsed(
            stream.targets(),
            exclusions,
            answers,
        ).contains(ip),
{
    law_stream_gathers_alike(stream.targets(), answers, stream.transcript());
    law_chunks_order(gathered(stream.targets(), answers), stream.excluded(), stream.size());
    law_chunks_members(
        gathered(stream.targets(), answers),
        stream.excluded(),
        stream.size(),
        ip,
    );
}

/// The addresses that a stream holds are bounded by the chunk size and the longest answer
/// to a lookup, however large the networks are, whether they are scanned or excluded:
/// where no lookup gave more than `most` addresses, it holds at most two full chunks and
/// as many addresses as that.
pub proof fn law_stream_memory_bounded(stream: AddressStream, most: nat)
    requires
        stream.wf(),
        most >= 1,
        answers_within(stream.transcript(), most),
    ensures
        stream.held() <= 2 * capacity(stream.size()) + most,
{
    stream.lemma_held(most);
}

/// Where every target spells an address or a network, a stream never holds more than two
/// full chunks and one address.
pub proof fn law_stream_memory_of_literals(stream: AddressStream)
    requires
        stream.wf(),
        forall|i: int|
            0 <= i < stream.targets().len() ==> is_literal(#[trigger] stream.targets()[i]),
    ensures
        stream.held() <= 2 * capacity(stream.size()) + 1,
{
    stream.lemma_literals(1);
    stream.lemma_held(1);
}

/// What is due for the targets is a lookup for one of them.
proof fn lemma_arguments_due_at(targets: Seq<Seq<char>>, hosts: Seq<HostView>, k: int)
    requires
        0 <= k <= targets.len(),
    ensures
        match arguments_due(targets, hosts, k) {
            None => true,
            Some(NeedView::Argument { index, request }) => {
                &&& k <= index < targets.len()
                &&& request_due(targets[index], hosts[index]) == Some(request)
            },
            _ => false,
        },
    decreases targets.len() - k,
{
    if k < targets.len() {
        lemma_arguments_due_at(targets, hosts, k + 1);
    }
}

/// What is due for lines is a lookup for one of them.
proof fn lemma_lines_due_at(lines: Seq<LineView>, k: int)
    requires
        0 <= k <= lines.len(),
    ensures
        match lines_due(lines, k) {
            None => true,
            Some((line, request)) => k <= line < lines.len() && line_due(lines[line]) == Some(
                request,
            ),
        },
    decreases lines.len() - k,
{
    if k < lines.len() {
        lemma_lines_due_at(lines, k + 1);
    }
}

/// What is due for the targets as files is a file that nobody has read, or a lookup for a
/// line of one.
proof fn lemma_files_due_at(targets: Seq<Seq<char>>, answers: AnswersView, k: int)
    requires
        0 <= k <= targets.len(),
    ensures
        match files_due(targets, answers, k) {
            None => true,
            Some(NeedView::File { index, path }) => {
                &&& k <= index < targets.len()
                &&& path == targets[index]
                &&& answers.files[index] == FileView::Unread
            },
            Some(NeedView::Line { index, line, request }) => {
                &&& k <= index < targets.len()
                &&& answers.files[index] matches FileView::Lines(lines)
                &&& 0 <= line < lines.len()
                &&& line_due(lines[line]) == Some(request)
            },
            _ => false,
        },
    decreases targets.len() - k,
{
    if k < targets.len() {
        lemma_files_due_at(targets, answers, k + 1);
        if let FileView::Lines(lines) = answers.files[k] {
            lemma_lines_due_at(lines, 0);
        }
    }
}

/// What is due for the exclusions is a lookup for one of them.
proof fn lemma_exclusions_due_at(texts: Seq<Seq<char>>, hosts: Seq<HostView>, k: int)
    requires
        0 <= k <= texts.len(),
    ensures
        match exclusions_due(texts, hosts, k) {
            None => true,
            Some(NeedView::Exclusion { index, request }) => {
                &&& k <= index < texts.len()
                &&& exclusion_due(texts[index], hosts[index]) == Some(request)
            },
            _ => false,
        },
    decreases texts.len() - k,
{
    if k < texts.len() {
        lemma_exclusions_due_at(texts, hosts, k + 1);
    }
}

/// What is due points at something that is there and that is still open: a target or an
/// exclusion with just that lookup due, a target that nobody has read as a file, or a
/// line of one with just that lookup due.
pub proof fn law_need_is_open(
    targets: Seq<Seq<char>>,
    exclusions: Seq<Seq<char>>,
    answers: AnswersView,
)
    ensures
        match addresses_due(targets, exclusions, answers) {
            None => true,
            Some(NeedView::Argument { index, request }) => {
                &&& 0 <= index < targets.len()
                &&& request_due(targets[index], answers.arguments[index]) == Some(request)
            },
            Some(NeedView::File { index, path }) => {
                &&& 0 <= index < targets.len()
                &&& path == targets[index]
                &&& answers.files[index] == FileView::Unread
            },
            Some(NeedView::Line { index, line, request }) => {
                &&& 0 <= index < targets.len()
                &&& answers.files[index] matches FileView::Lines(lines)
                &&& 0 <= line < lines.len()
                &&& line_due(lines[line]) == Some(request)
            },
            Some(NeedView::Exclusion { index, request }) => {
                &&& 0 <= index < exclusions.len()
                &&& exclusion_due(exclusions[index], answers.exclusions[index]) == Some(request)
            },
        },
{
    lemma_arguments_due_at(targets, answers.arguments, 0);
    lemma_files_due_at(targets, answers, 0);
    lemma_exclusions_due_at(exclusions, answers.exclusions, 0);
}

} // verus!
