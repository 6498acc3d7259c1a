//! Handing addresses out in chunks of bounded size.
use vstd::prelude::*;

use crate::ip::{all_wf, covered, Ip, Net};
use crate::select::{is_excluded, Seen};

verus! {

/// Addresses cut into chunks: those that are full, and what the next one holds so far.
pub struct Chunking {
    /// The full chunks, in order.
    pub full: Seq<Seq<Ip>>,
    /// What the next chunk holds so far.
    pub rest: Seq<Ip>,
}

/// Cuts addresses into chunks. An address joins the chunk that is being filled unless
/// it is in there already or an excluded network holds it; a chunk that has reached the
/// size is full.
pub open spec fn chunking(ips: Seq<Ip>, excluded: Seq<Net>, size: nat) -> Chunking
    decreases ips.len(),
{
    if ips.len() == 0 {
        Chunking { full: Seq::empty(), rest: Seq::empty() }
    } else {
        let before = chunking(ips.drop_last(), excluded, size);
        let ip = ips.last();
        if before.rest.contains(ip) || covered(excluded, ip) {
            before
        } else if before.rest.len() + 1 >= size {
            Chunking { full: before.full.push(before.rest.push(ip)), rest: Seq::empty() }
        } else {
            Chunking { full: before.full, rest: before.rest.push(ip) }
        }
    }
}

/// Every chunk that the addresses make, the last one full or not.
pub open spec fn chunks(ips: Seq<Ip>, excluded: Seq<Net>, size: nat) -> Seq<Seq<Ip>> {
    let cut = chunking(ips, excluded, size);
    if cut.rest.len() > 0 {
        cut.full.push(cut.rest)
    } else {
        cut.full
    }
}

/// How many addresses the chunks hold together.
pub open spec fn count(chunks: Seq<Seq<Ip>>) -> nat
    decreases chunks.len(),
{
    if chunks.len() == 0 {
        0
    } else {
        count(chunks.drop_last()) + chunks.last().len()
    }
}

/// The addresses of the chunks, one chunk after the other.
pub open spec fn joined(chunks: Seq<Seq<Ip>>) -> Seq<Ip>
    decreases chunks.len(),
{
    if chunks.len() == 0 {
        Seq::empty()
    } else {
        joined(chunks.drop_last()) + chunks.last()
    }
}

/// A number, where it is small enough to be held.
pub open spec fn held(n: nat) -> Option<usize> {
    if n <= usize::MAX {
        Some(n as usize)
    } else {
        None
    }
}

/// How many addresses a full chunk has: the size asked for, and one where that is zero.
pub open spec fn capacity(size: nat) -> nat {
    if size == 0 {
        1
    } else {
        size
    }
}

/// Fills chunks with addresses. Of those that were offered, only the ones in the chunk
/// that is being filled are held.
pub struct Chunker {
    excluded: Vec<Net>,
    size: usize,
    chunk: Vec<Ip>,
    seen: Seen,
    total: Option<usize>,
    offered: Ghost<Seq<Ip>>,
    delivered: Ghost<Seq<Seq<Ip>>>,
}

impl Chunker {
    /// The networks that are left out.
    pub closed spec fn excluded(self) -> Seq<Net> {
        self.excluded@
    }

    /// How many addresses make a chunk full.
    pub closed spec fn size(self) -> nat {
        self.size as nat
    }

    /// The addresses that were offered so far.
    pub closed spec fn offered(self) -> Seq<Ip> {
        self.offered@
    }

    /// The chunks that were handed out so far.
    pub closed spec fn delivered(self) -> Seq<Seq<Ip>> {
        self.delivered@
    }

    /// How many addresses are held: those in the chunk that is being filled, and those
    /// that duplicates are told by.
    pub closed spec fn held(self) -> nat {
        self.chunk@.len() + self.seen.count()
    }

    /// The excluded networks are well formed, the total is right, and duplicates are told
    /// by just the addresses in the chunk that is being filled.
    pub closed spec fn inv(self) -> bool {
        &&& all_wf(self.excluded@)
        &&& self.total == held(count(self.delivered@))
        &&& self.seen.wf()
        &&& self.seen.count() == self.chunk@.len()
        &&& forall|ip: Ip|
            #![trigger self.seen.has(ip)]
            #![trigger self.chunk@.contains(ip)]
            self.chunk@.contains(ip) <==> self.seen.has(ip)
    }

    /// Every full chunk was handed out, and nothing else; the one that is being filled is
    /// not full.
    pub closed spec fn open(self) -> bool {
        &&& self.inv()
        &&& self.chunk@.len() < capacity(self.size as nat)
        &&& chunking(self.offered@, self.excluded@, self.size as nat) == (Chunking {
            full: self.delivered@,
            rest: self.chunk@,
        })
    }

    /// Nothing was offered yet.
    pub fn new(excluded: Vec<Net>, size: usize) -> (chunker: Chunker)
        requires
            all_wf(excluded@),
        ensures
            chunker.open(),
            chunker.excluded() == excluded@,
            chunker.size() == size,
            chunker.offered() == Seq::<Ip>::empty(),
            chunker.delivered() == Seq::<Seq<Ip>>::empty(),
            chunker.held() == 0,
    {
        Chunker {
            excluded,
            size,
            chunk: Vec::new(),
            seen: Seen::new(),
            total: Some(0),
            offered: Ghost(Seq::empty()),
            delivered: Ghost(Seq::empty()),
        }
    }

    /// What was handed out is what chunking gives as full. What is held is what it gives
    /// as the rest, once to hand out and once to tell duplicates by, which is less than two
    /// full chunks.
    pub proof fn lemma_open(self)
        requires
            self.open(),
        ensures
            self.delivered() == chunking(self.offered(), self.excluded(), self.size()).full,
            self.held() < 2 * capacity(self.size()),
            self.held() == 2 * chunking(self.offered(), self.excluded(), self.size()).rest.len(),
    {
    }

    /// How many addresses were handed out, where that is small enough to be held.
    pub fn total(&self) -> (total: Option<usize>)
        requires
            self.inv(),
        ensures
            total == held(count(self.delivered())),
    {
        self.total
    }

    /// Hands out the chunk that is being filled, unless it is empty.
    pub fn flush(&mut self) -> (chunk: Option<Vec<Ip>>)
        requires
            old(self).open(),
        ensures
            final(self).inv(),
            final(self).excluded() == old(self).excluded(),
            final(self).size() == old(self).size(),
            final(self).offered() == old(self).offered(),
            final(self).held() == 0,
            final(self).delivered() == chunks(
                old(self).offered(),
                old(self).excluded(),
                old(self).size(),
            ),
            match chunk {
                Some(chunk) => chunk@.len() > 0 && final(self).delivered() == old(
                    self,
                ).delivered().push(chunk@),
                None => final(self).delivered() == old(self).delivered(),
            },
    {
        if self.chunk.len() == 0 {
            return None;
        }
        Some(self.hand_out())
    }

    /// Hands out the chunk that is being filled.
    fn hand_out(&mut self) -> (chunk: Vec<Ip>)
        requires
            old(self).inv(),
        ensures
            final(self).inv(),
            final(self).excluded == old(self).excluded,
            final(self).size == old(self).size,
            final(self).offered == old(self).offered,
            final(self).delivered@ == old(self).delivered@.push(chunk@),
            final(self).chunk@ == Seq::<Ip>::empty(),
            chunk@ == old(self).chunk@,
    {
        let mut chunk: Vec<Ip> = Vec::new();
        std::mem::swap(&mut chunk, &mut self.chunk);
        self.seen.clear();
        self.total = match self.total {
            Some(total) => total.checked_add(chunk.len()),
            None => None,
        };
        proof {
            let before = self.delivered@;
            self.delivered@ = before.push(chunk@);
            assert(before.push(chunk@).drop_last() =~= before);
        }
        chunk
    }

    /// Offers an address, and hands out the chunk if that fills it.
    pub fn push(&mut self, ip: Ip) -> (chunk: Option<Vec<Ip>>)
        requires
            old(self).open(),
        ensures
            final(self).open(),
            final(self).excluded() == old(self).excluded(),
            final(self).size() == old(self).size(),
            final(self).offered() == old(self).offered().push(ip),
            match chunk {
                Some(chunk) => chunk@.len() > 0 && final(self).delivered() == old(
                    self,
                ).delivered().push(chunk@),
                None => final(self).delivered() == old(self).delivered(),
            },
    {
        let ghost before = self.offered@;
        let ghost held_before = self.chunk@;
        proof {
            self.offered@ = before.push(ip);
            assert(before.push(ip).drop_last() =~= before);
        }
        if !is_excluded(&self.excluded, ip) && self.seen.insert(ip) {
            self.chunk.push(ip);
            proof {
                assert(self.chunk@[held_before.len() as int] == ip);
                assert forall|other: Ip|
                    self.chunk@.contains(other) <==> other == ip || held_before.contains(other) by {
                    if held_before.contains(other) {
                        let j = held_before.index_of(other);
                        assert(self.chunk@[j] == other);
                    }
                }
            }
            if self.chunk.len() >= self.size {
                return Some(self.hand_out());
            }
        }
        None
    }
}

} // verus!
