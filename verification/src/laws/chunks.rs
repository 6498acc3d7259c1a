//! How addresses are cut into chunks.
use vstd::prelude::*;

use crate::chunk::{capacity, chunking, chunks, count, held, joined};
use crate::ip::{covered, Ip, Net};
use crate::select::selected;

use super::law_selection_members;

verus! {

/// How many addresses fill a chunk: as many as were asked for, but at least one.
pub open spec fn filling(size: nat) -> nat {
    if size >= 1 {
        size
    } else {
        1
    }
}

/// The places at which the addresses are cut: they start at the front, and none comes
/// twice.
pub open spec fn are_cuts(cuts: Seq<int>, ips: Seq<Ip>) -> bool {
    &&& cuts.len() > 0
    &&& cuts[0] == 0
    &&& cuts.last() <= ips.len()
    &&& forall|i: int, j: int| 0 <= i < j < cuts.len() ==> #[trigger] cuts[i] < #[trigger] cuts[j]
}

/// What the chunk between two cuts holds: of the addresses there, the first occurrence of
/// each that is not excluded, in their order.
pub open spec fn between(ips: Seq<Ip>, excluded: Seq<Net>, cuts: Seq<int>, i: int) -> Seq<Ip> {
    selected(ips.subrange(cuts[i], cuts[i + 1]), excluded)
}

/// The chunk is full, and became so with the last address before the cut.
pub open spec fn cut_when_full(
    chunk: Seq<Ip>,
    ips: Seq<Ip>,
    cuts: Seq<int>,
    i: int,
    size: nat,
) -> bool {
    &&& chunk.len() == filling(size)
    &&& ips[cuts[i + 1] - 1] == chunk.last()
}

/// Every full chunk has its cut, and what follows the last cut is in the chunk that is
/// being filled.
proof fn lemma_cuts(ips: Seq<Ip>, excluded: Seq<Net>, size: nat) -> (cuts: Seq<int>)
    ensures
        are_cuts(cuts, ips),
        cuts.len() == chunking(ips, excluded, size).full.len() + 1,
        forall|i: int|
            0 <= i < chunking(ips, excluded, size).full.len() ==> #[trigger] chunking(
                ips,
                excluded,
                size,
            ).full[i] == between(ips, excluded, cuts, i) && cut_when_full(
                chunking(ips, excluded, size).full[i],
                ips,
                cuts,
                i,
                size,
            ),
        chunking(ips, excluded, size).rest == selected(
            ips.subrange(cuts.last(), ips.len() as int),
            excluded,
        ),
        chunking(ips, excluded, size).rest.len() < filling(size),
    decreases ips.len(),
{
    if ips.len() == 0 {
        assert(ips.subrange(0, 0) =~= Seq::<Ip>::empty());
        seq![0int]
    } else {
        let n = ips.len() as int;
        let before = ips.drop_last();
        let ip = ips.last();
        let old_cuts = lemma_cuts(before, excluded, size);
        let old_cut = chunking(before, excluded, size);
        let cut = chunking(ips, excluded, size);
        let from = old_cuts.last();
        let part = before.subrange(from, n - 1);
        let more = ips.subrange(from, n);
        assert(more.drop_last() =~= part);
        law_selection_members(part, excluded, ip);
        assert(selected(more, excluded) == if part.contains(ip) || covered(excluded, ip) {
            old_cut.rest
        } else {
            old_cut.rest.push(ip)
        });
        let full = !(old_cut.rest.contains(ip) || covered(excluded, ip)) && old_cut.rest.len() + 1
            >= size;
        let cuts = if full {
            old_cuts.push(n)
        } else {
            old_cuts
        };
        assert forall|i: int, j: int| 0 <= i < j < cuts.len() implies #[trigger] cuts[i]
            < #[trigger] cuts[j] by {
            assert(cuts[i] == old_cuts[i]);
            if j < old_cuts.len() {
                assert(cuts[j] == old_cuts[j]);
            } else if i < old_cuts.len() - 1 {
                assert(old_cuts[i] < old_cuts[old_cuts.len() - 1]);
            }
        }
        assert forall|i: int| 0 <= i < cut.full.len() implies #[trigger] cut.full[i] == between(
            ips,
            excluded,
            cuts,
            i,
        ) && cut_when_full(cut.full[i], ips, cuts, i, size) by {
            if i < old_cut.full.len() {
                assert(cut.full[i] == old_cut.full[i]);
                assert(cuts[i] == old_cuts[i] && cuts[i + 1] == old_cuts[i + 1]);
                assert(old_cuts[0] <= old_cuts[i] < old_cuts[i + 1]);
                assert(old_cuts[i + 1] <= old_cuts.last()) by {
                    if i + 1 < old_cuts.len() - 1 {
                        assert(old_cuts[i + 1] < old_cuts[old_cuts.len() - 1]);
                    }
                }
                assert(ips.subrange(cuts[i], cuts[i + 1]) =~= before.subrange(
                    cuts[i],
                    cuts[i + 1],
                ));
                assert(ips[cuts[i + 1] - 1] == before[cuts[i + 1] - 1]);
            }
        }
        if full {
            assert(ips.subrange(n, n) =~= Seq::<Ip>::empty());
        }
        cuts
    }
}

/// The addresses are cut into consecutive parts, and each chunk is made of one of them: it
/// holds the first occurrence there of each address that is not excluded, in their order.
/// A chunk is cut right when it is full, which is when it has as many addresses as were
/// asked for (one where none were); only the last may be short of that, and it is not
/// empty. Behind the last cut nothing is left but duplicates and excluded addresses.
pub proof fn law_chunks_cut(ips: Seq<Ip>, excluded: Seq<Net>, size: nat) -> (cuts: Seq<int>)
    ensures
        are_cuts(cuts, ips),
        cuts.len() == chunks(ips, excluded, size).len() + 1,
        forall|i: int|
            0 <= i < chunks(ips, excluded, size).len() ==> #[trigger] chunks(
                ips,
                excluded,
                size,
            )[i] == between(ips, excluded, cuts, i) && 0 < chunks(ips, excluded, size)[i].len()
                <= filling(size),
        forall|i: int|
            0 <= i < chunks(ips, excluded, size).len() ==> {
                ||| cut_when_full(#[trigger] chunks(ips, excluded, size)[i], ips, cuts, i, size)
                ||| i + 1 == chunks(ips, excluded, size).len() && cuts[i + 1] == ips.len()
            },
        selected(ips.subrange(cuts.last(), ips.len() as int), excluded) == Seq::<Ip>::empty(),
{
    let cut = chunking(ips, excluded, size);
    let all = chunks(ips, excluded, size);
    let old_cuts = lemma_cuts(ips, excluded, size);
    let n = ips.len() as int;
    if cut.rest.len() == 0 {
        assert(cut.rest =~= Seq::<Ip>::empty());
        old_cuts
    } else {
        let cuts = old_cuts.push(n);
        if old_cuts.last() == n {
            assert(ips.subrange(n, n) =~= Seq::<Ip>::empty());
            assert(false);
        }
        assert forall|i: int, j: int| 0 <= i < j < cuts.len() implies #[trigger] cuts[i]
            < #[trigger] cuts[j] by {
            assert(cuts[i] == old_cuts[i]);
            if j < old_cuts.len() {
                assert(cuts[j] == old_cuts[j]);
            } else if i < old_cuts.len() - 1 {
                assert(old_cuts[i] < old_cuts[old_cuts.len() - 1]);
            }
        }
        assert forall|i: int| 0 <= i < all.len() implies #[trigger] all[i] == between(
            ips,
            excluded,
            cuts,
            i,
        ) && 0 < all[i].len() <= filling(size) && (cut_when_full(all[i], ips, cuts, i, size) || i
            + 1 == all.len() && cuts[i + 1] == n) by {
            assert(cuts[i] == old_cuts[i]);
            if i < cut.full.len() {
                assert(all[i] == cut.full[i]);
                assert(cuts[i + 1] == old_cuts[i + 1]);
            }
        }
        assert(ips.subrange(n, n) =~= Seq::<Ip>::empty());
        cuts
    }
}

/// The total is the number of addresses in all the chunks, put one behind the other.
pub proof fn law_count(chunks: Seq<Seq<Ip>>)
    ensures
        joined(chunks) == chunks.flatten(),
        count(chunks) == chunks.flatten().len(),
    decreases chunks.len(),
{
    if chunks.len() > 0 {
        let before = chunks.drop_last();
        law_count(before);
        assert(chunks =~= before.push(chunks.last()));
        before.lemma_flatten_push(chunks.last());
    }
}

/// The bounds on what is held go by the number of addresses that fill a chunk.
pub proof fn law_capacity(size: nat)
    ensures
        capacity(size) == filling(size),
{
}

/// A number is given where a machine word holds it, and then it is that number.
pub proof fn law_held(n: nat)
    ensures
        held(n) is Some <==> n <= usize::MAX,
        held(n) matches Some(m) ==> m == n,
{
}

} // verus!
