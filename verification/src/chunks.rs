//! Accounting over live-chunk reports.
//!
//! The engine's enumeration facility reports each live allocation in an
//! address window `[base, base + len)` as a `(base address, size)` pair.
//! These functions state exactly which reported chunks fall in a window and
//! how many of them carry a given size; diagnostics and tests are written
//! against them.

use vstd::prelude::*;

verus! {

/// One live allocation as the engine's enumeration facility reports it.
#[derive(Clone, Copy, PartialEq, Eq, Structural, Debug)]
pub struct Chunk {
    pub base: usize,
    pub size: usize,
}

/// A chunk lies in the window `[base, base + len)` when its base address does.
pub open spec fn in_window(c: Chunk, base: usize, len: usize) -> bool {
    base <= c.base < base + len
}

/// The subsequence of `s` that lies in the window `[base, base + len)`,
/// in reported order.
pub open spec fn window_chunks(s: Seq<Chunk>, base: usize, len: usize) -> Seq<Chunk>
    decreases s.len(),
{
    if s.len() == 0 {
        Seq::empty()
    } else {
        let rest = window_chunks(s.drop_last(), base, len);
        if in_window(s.last(), base, len) {
            rest.push(s.last())
        } else {
            rest
        }
    }
}

/// How many chunks of `s` carry exactly the size `size`.
pub open spec fn count_size(s: Seq<Chunk>, size: usize) -> nat
    decreases s.len(),
{
    if s.len() == 0 {
        0
    } else {
        count_size(s.drop_last(), size) + if s.last().size == size {
            1nat
        } else {
            0nat
        }
    }
}

/// Appending one report adds one to the count of its size and leaves every
/// other count unchanged.
pub proof fn lemma_count_size_push(s: Seq<Chunk>, c: Chunk, size: usize)
    ensures
        count_size(s.push(c), size) == count_size(s, size) + if c.size == size {
            1nat
        } else {
            0nat
        },
{
    assert(s.push(c).drop_last() =~= s);
}

/// `count_size` can also be unfolded from the front of the sequence.
pub proof fn lemma_count_size_drop_first(s: Seq<Chunk>, size: usize)
    requires
        s.len() > 0,
    ensures
        count_size(s, size) == count_size(s.drop_first(), size) + if s[0].size == size {
            1nat
        } else {
            0nat
        },
    decreases s.len(),
{
    if s.len() == 1 {
        assert(s.drop_last() =~= s.drop_first());
    } else {
        lemma_count_size_drop_first(s.drop_last(), size);
        assert(s.drop_last().drop_first() =~= s.drop_first().drop_last());
        assert(s.drop_first().last() == s.last());
    }
}

/// An enumeration over an empty window visits nothing, whatever is live.
pub proof fn lemma_empty_window_visits_nothing(s: Seq<Chunk>, base: usize)
    ensures
        window_chunks(s, base, 0).len() == 0,
    decreases s.len(),
{
    if s.len() > 0 {
        lemma_empty_window_visits_nothing(s.drop_last(), base);
    }
}

/// No two chunks of `s` share a base address.
pub open spec fn distinct_bases(s: Seq<Chunk>) -> bool {
    forall|i: int, j: int| 0 <= i < j < s.len() ==> s[i].base != s[j].base
}

/// An enumeration reports only chunks that are live.
pub proof fn lemma_window_chunks_subset(s: Seq<Chunk>, base: usize, len: usize, c: Chunk)
    requires
        window_chunks(s, base, len).contains(c),
    ensures
        s.contains(c),
    decreases s.len(),
{
    if s.len() > 0 {
        let w = window_chunks(s, base, len);
        let rest = window_chunks(s.drop_last(), base, len);
        if in_window(s.last(), base, len) && c == s.last() {
            assert(s[s.len() - 1] == c);
        } else {
            if in_window(s.last(), base, len) {
                let k = choose|k: int| 0 <= k < w.len() && w[k] == c;
                assert(rest[k] == c);
            }
            lemma_window_chunks_subset(s.drop_last(), base, len, c);
            let k = choose|k: int| 0 <= k < s.drop_last().len() && s.drop_last()[k] == c;
            assert(s[k] == c);
        }
    }
}

/// Law: where the live set holds no two chunks with one base address, an
/// enumeration over any window visits no chunk twice.
pub proof fn lemma_window_chunks_distinct(s: Seq<Chunk>, base: usize, len: usize)
    requires
        distinct_bases(s),
    ensures
        distinct_bases(window_chunks(s, base, len)),
    decreases s.len(),
{
    if s.len() > 0 {
        lemma_window_chunks_distinct(s.drop_last(), base, len);
        let rest = window_chunks(s.drop_last(), base, len);
        if in_window(s.last(), base, len) {
            assert forall|k: int| 0 <= k < rest.len() implies rest[k].base != s.last().base by {
                lemma_window_chunks_subset(s.drop_last(), base, len, rest[k]);
                let j = choose|j: int|
                    0 <= j < s.drop_last().len() && s.drop_last()[j] == rest[k];
                assert(s[j] == rest[k]);
            }
        }
    }
}

/// The chunks of `chunks` that lie in the window `[base, base + len)`,
/// in reported order: the chunks a windowed enumeration hands to its
/// visiting function.
pub fn chunks_in_range(chunks: &Vec<Chunk>, base: usize, len: usize) -> (out: Vec<Chunk>)
    ensures
        out@ == window_chunks(chunks@, base, len),
{
    let mut out: Vec<Chunk> = Vec::new();
    let mut i: usize = 0;
    while i < chunks.len()
        invariant
            i <= chunks.len(),
            out@ == window_chunks(chunks@.take(i as int), base, len),
        decreases chunks.len() - i,
    {
        let c = chunks[i];
        proof {
            assert(chunks@.take(i + 1).drop_last() =~= chunks@.take(i as int));
            assert(chunks@.take(i + 1).last() == chunks@[i as int]);
        }
        if base <= c.base && len > 0 && c.base - base < len {
            out.push(c);
        }
        i = i + 1;
    }
    proof {
        assert(chunks@.take(chunks@.len() as int) =~= chunks@);
    }
    out
}

/// How many of the reported chunks carry exactly the size `size`.
pub fn count_chunks_with_size(chunks: &Vec<Chunk>, size: usize) -> (n: usize)
    ensures
        n == count_size(chunks@, size),
{
    let mut n: usize = 0;
    let mut i: usize = 0;
    while i < chunks.len()
        invariant
            i <= chunks.len(),
            n <= i,
            n == count_size(chunks@.take(i as int), size),
        decreases chunks.len() - i,
    {
        proof {
            assert(chunks@.take(i + 1).drop_last() =~= chunks@.take(i as int));
            assert(chunks@.take(i + 1).last() == chunks@[i as int]);
        }
        if chunks[i].size == size {
            n = n + 1;
        }
        i = i + 1;
    }
    proof {
        assert(chunks@.take(chunks@.len() as int) =~= chunks@);
    }
    n
}

/// Whether some reported chunk has exactly this base address and size.
pub fn contains_chunk(chunks: &Vec<Chunk>, base: usize, size: usize) -> (found: bool)
    ensures
        found == chunks@.contains(Chunk { base, size }),
{
    let mut i: usize = 0;
    while i < chunks.len()
        invariant
            i <= chunks.len(),
            forall|k: int| 0 <= k < i ==> chunks@[k] != (Chunk { base, size }),
        decreases chunks.len() - i,
    {
        if chunks[i].base == base && chunks[i].size == size {
            assert(chunks@[i as int] == Chunk { base, size });
            return true;
        }
        i = i + 1;
    }
    false
}

} // verus!
