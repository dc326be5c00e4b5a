//! The live-allocation ledger of the adapter protocol.
//!
//! The engine owns the real live-allocation set; the adapter only ever adds
//! to it (a successful allocate), removes from it (a deallocate), or reads
//! it (an enumeration). [`LiveSet`] is that set as the adapter's protocol
//! maintains it, and its contracts are the protocol's bookkeeping rules:
//! what an allocation adds, exactly when a deallocation succeeds, and how
//! the engine's hardening classifies a request it refuses.
//!
//! The engine never recovers from a refused deallocation: it terminates the
//! process. [`FatalCorruption`] is therefore a classification, not an error
//! to handle — the adapter layer adds no check of its own and never catches
//! it.

use vstd::prelude::*;

use crate::chunks::Chunk;
use crate::chunks::chunks_in_range;
use crate::chunks::count_chunks_with_size;
use crate::chunks::count_size;
use crate::chunks::distinct_bases;
use crate::chunks::lemma_count_size_drop_first;
use crate::chunks::lemma_count_size_push;
use crate::chunks::window_chunks;

verus! {

/// The condition under which the engine's hardening terminates the process.
///
/// `InvalidFree` covers every deallocation whose address is not the base of
/// a live chunk: a double free, a misaligned pointer, a pointer into the
/// middle of a chunk with a corrupted header. `SizeMismatch` is a
/// deallocation of a live chunk under a size other than the one it was
/// allocated with, refused only while the engine's size-mismatch check is
/// switched on.
#[derive(Clone, Copy, PartialEq, Eq, Structural, Debug)]
pub enum FatalCorruption {
    InvalidFree,
    SizeMismatch,
}

/// The live chunk of `s` with base address `base`, if there is one.
pub open spec fn lookup(s: Seq<Chunk>, base: usize) -> Option<Chunk>
    decreases s.len(),
{
    if s.len() == 0 {
        None
    } else if s[0].base == base {
        Some(s[0])
    } else {
        lookup(s.drop_first(), base)
    }
}

/// Whether some live chunk of `s` has base address `base`.
pub open spec fn has_base(s: Seq<Chunk>, base: usize) -> bool {
    lookup(s, base) is Some
}

/// `s` with the chunk at base address `base` taken out.
pub open spec fn remove_base(s: Seq<Chunk>, base: usize) -> Seq<Chunk>
    decreases s.len(),
{
    if s.len() == 0 {
        s
    } else if s[0].base == base {
        s.drop_first()
    } else {
        seq![s[0]] + remove_base(s.drop_first(), base)
    }
}

/// The set of live allocations, in allocation order, as the adapter
/// protocol maintains it.
pub struct LiveSet {
    chunks: Vec<Chunk>,
}

impl View for LiveSet {
    type V = Seq<Chunk>;

    closed spec fn view(&self) -> Seq<Chunk> {
        self.chunks@
    }
}

impl LiveSet {
    /// The ledger before any allocation: empty.
    pub fn new() -> (s: LiveSet)
        ensures
            s@ == Seq::<Chunk>::empty(),
    {
        LiveSet { chunks: Vec::new() }
    }

    /// Records a successful allocation. The engine hands out an address
    /// that is not the base of any live chunk, so the new chunk is fresh.
    pub fn record_allocation(&mut self, base: usize, size: usize)
        requires
            !has_base(old(self)@, base),
        ensures
            final(self)@ == old(self)@.push(Chunk { base, size }),
            distinct_bases(old(self)@) ==> distinct_bases(final(self)@),
    {
        proof {
            lemma_has_base_iff(self@, base);
            if distinct_bases(self@) {
                let t = self@.push(Chunk { base, size });
                assert forall|i: int, j: int| 0 <= i < j < t.len() implies t[i].base != t[j].base by {
                    if j < t.len() - 1 {
                        assert(t[i] == self@[i] && t[j] == self@[j]);
                    } else {
                        assert(t[i] == self@[i]);
                    }
                }
            }
        }
        self.chunks.push(Chunk { base, size });
    }

    /// Records a deallocation request, classifying it as the engine's
    /// hardening does. `check_size` is the engine's size-mismatch check
    /// (its `delete_size_mismatch` option): while it is on, freeing a live
    /// chunk under the wrong size is refused too.
    ///
    /// A refusal means the engine terminates the process; the ledger is
    /// reported unchanged only to state that the live set was not altered
    /// first.
    pub fn record_deallocation(&mut self, base: usize, size: usize, check_size: bool) -> (r:
        Result<(), FatalCorruption>)
        ensures
            match lookup(old(self)@, base) {
                None => r == Err::<(), FatalCorruption>(FatalCorruption::InvalidFree)
                    && final(self)@ == old(self)@,
                Some(c) => if check_size && c.size != size {
                    r == Err::<(), FatalCorruption>(FatalCorruption::SizeMismatch) && final(self)@
                        == old(self)@
                } else {
                    r == Ok::<(), FatalCorruption>(()) && final(self)@ == remove_base(
                        old(self)@,
                        base,
                    )
                },
            },
            distinct_bases(old(self)@) ==> distinct_bases(final(self)@),
    {
        let n = self.chunks.len();
        let mut i: usize = 0;
        while i < n
            invariant
                n == self.chunks.len(),
                i <= n,
                self == old(self),
                forall|k: int| 0 <= k < i ==> self.chunks@[k].base != base,
            decreases n - i,
        {
            if self.chunks[i].base == base {
                proof {
                    lemma_lookup_at_index(self.chunks@, base, i as int);
                }
                if check_size && self.chunks[i].size != size {
                    return Err(FatalCorruption::SizeMismatch);
                }
                self.chunks.remove(i);
                proof {
                    let s = old(self)@;
                    if distinct_bases(s) {
                        s.remove_ensures(i as int);
                        let t = s.remove(i as int);
                        assert forall|p: int, q: int| 0 <= p < q < t.len() implies t[p].base
                            != t[q].base by {
                            let p0: int = if p < i { p } else { p + 1 };
                            let q0: int = if q < i { q } else { q + 1 };
                            assert(t[p] == s[p0] && t[q] == s[q0]);
                        }
                    }
                }
                return Ok(());
            }
            i = i + 1;
        }
        proof {
            lemma_lookup_absent(self.chunks@, base);
        }
        Err(FatalCorruption::InvalidFree)
    }

    /// The chunks a windowed enumeration reports, in order: every live
    /// chunk whose base address lies in `[base, base + len)`.
    pub fn enumerate(&self, base: usize, len: usize) -> (out: Vec<Chunk>)
        ensures
            out@ == window_chunks(self@, base, len),
    {
        chunks_in_range(&self.chunks, base, len)
    }

    /// How many live chunks carry exactly the size `size`.
    pub fn count_of_size(&self, size: usize) -> (n: usize)
        ensures
            n == count_size(self@, size),
    {
        count_chunks_with_size(&self.chunks, size)
    }
}

/// Where a linear scan finds the first chunk with a base, `lookup` finds
/// that chunk and `remove_base` takes exactly it out.
proof fn lemma_lookup_at_index(s: Seq<Chunk>, base: usize, i: int)
    requires
        0 <= i < s.len(),
        s[i].base == base,
        forall|k: int| 0 <= k < i ==> s[k].base != base,
    ensures
        lookup(s, base) == Some(s[i]),
        remove_base(s, base) == s.remove(i),
    decreases i,
{
    if i == 0 {
        assert(s.drop_first() =~= s.remove(0));
    } else {
        lemma_lookup_at_index(s.drop_first(), base, i - 1);
        assert(s.drop_first()[i - 1] == s[i]);
        assert(seq![s[0]] + s.drop_first().remove(i - 1) =~= s.remove(i));
    }
}

/// A scan that finds no chunk with the base means `lookup` finds none.
proof fn lemma_lookup_absent(s: Seq<Chunk>, base: usize)
    requires
        forall|k: int| 0 <= k < s.len() ==> s[k].base != base,
    ensures
        lookup(s, base) is None,
    decreases s.len(),
{
    if s.len() > 0 {
        lemma_lookup_absent(s.drop_first(), base);
    }
}

/// A base address is found exactly when some live chunk carries it.
pub proof fn lemma_has_base_iff(s: Seq<Chunk>, base: usize)
    ensures
        has_base(s, base) <==> exists|k: int| 0 <= k < s.len() && s[k].base == base,
    decreases s.len(),
{
    if s.len() > 0 {
        lemma_has_base_iff(s.drop_first(), base);
        if s[0].base == base {
        } else if has_base(s, base) {
            let k = choose|k: int| 0 <= k < s.drop_first().len() && s.drop_first()[k].base == base;
            assert(s[k + 1].base == base);
        } else if exists|k: int| 0 <= k < s.len() && s[k].base == base {
            let k = choose|k: int| 0 <= k < s.len() && s[k].base == base;
            assert(s.drop_first()[k - 1].base == base);
        }
    }
}

/// Law: recording an allocation adds exactly one live chunk of its size,
/// and counts for every other size are unchanged.
pub proof fn lemma_allocation_adds_exactly_one(s: Seq<Chunk>, base: usize, size: usize, other: usize)
    ensures
        count_size(s.push(Chunk { base, size }), size) == count_size(s, size) + 1,
        other != size ==> count_size(s.push(Chunk { base, size }), other) == count_size(s, other),
{
    lemma_count_size_push(s, Chunk { base, size }, size);
    lemma_count_size_push(s, Chunk { base, size }, other);
}

/// Law: deallocating a live chunk under its original size removes exactly
/// one live chunk of that size.
pub proof fn lemma_deallocation_removes_exactly_one(s: Seq<Chunk>, base: usize, size: usize)
    requires
        lookup(s, base) == Some(Chunk { base, size }),
    ensures
        count_size(remove_base(s, base), size) + 1 == count_size(s, size),
    decreases s.len(),
{
    if s[0].base == base {
        lemma_count_size_drop_first(s, size);
    } else {
        lemma_deallocation_removes_exactly_one(s.drop_first(), base, size);
        lemma_count_size_drop_first(s, size);
        let rest = remove_base(s.drop_first(), base);
        lemma_count_size_drop_first(seq![s[0]] + rest, size);
        assert((seq![s[0]] + rest).drop_first() =~= rest);
    }
}

/// Law: an allocation followed by its deallocation restores the live set
/// exactly — the round trip leaks nothing.
pub proof fn lemma_allocate_deallocate_round_trip(s: Seq<Chunk>, base: usize, size: usize)
    requires
        !has_base(s, base),
    ensures
        remove_base(s.push(Chunk { base, size }), base) == s,
    decreases s.len(),
{
    let c = Chunk { base, size };
    if s.len() == 0 {
        assert(s.push(c).drop_first() =~= s);
    } else {
        assert(s.push(c)[0] == s[0]);
        assert(s.push(c).drop_first() =~= s.drop_first().push(c));
        lemma_allocate_deallocate_round_trip(s.drop_first(), base, size);
        assert(seq![s[0]] + s.drop_first() =~= s);
    }
}

} // verus!
