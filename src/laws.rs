use vstd::prelude::*;

use core::hash::BuildHasher;

use crate::bitset::blocks_for;
use crate::bloom::{
    decoded_blocks, meta_k, meta_m, probe, saturating_inc, valid_layout, with_probes,
    BloomFilter,
};
use crate::codec::{lemma_u32_le_round_trip, lemma_u64_le_round_trip, u32_le, u64_le, words_le};

verus! {

/// After the seeds `(h1, h2)` are inserted, the filter reports them present.
pub proof fn lemma_inserted_present<S: BuildHasher + Clone>(
    before: BloomFilter<S>,
    after: BloomFilter<S>,
    h1: u64,
    h2: u64,
)
    requires
        before.wf(),
        after.wf(),
        after.spec_k() == before.spec_k(),
        after@ == with_probes(before@, h1, h2, before.spec_k()),
    ensures
        after.holds(h1, h2),
{
    let m = before@.len();
    assert forall|i: int| 0 <= i < after.spec_k() implies #[trigger] after@[probe(h1, h2, i, after@.len())] by {
        let j = probe(h1, h2, i, m);
        assert(0 <= j < m);
        assert(probe(h1, h2, i, m) == j);
    }
}

/// Inserting more seeds keeps every value that was present present.
pub proof fn lemma_insert_keeps_present<S: BuildHasher + Clone>(
    before: BloomFilter<S>,
    after: BloomFilter<S>,
    h1: u64,
    h2: u64,
    g1: u64,
    g2: u64,
)
    requires
        before.wf(),
        after.wf(),
        after.spec_k() == before.spec_k(),
        after@ == with_probes(before@, h1, h2, before.spec_k()),
        before.holds(g1, g2),
    ensures
        after.holds(g1, g2),
{
    let m = before@.len();
    assert forall|i: int| 0 <= i < after.spec_k() implies #[trigger] after@[probe(g1, g2, i, after@.len())] by {
        assert(before@[probe(g1, g2, i, m)]);
    }
}

/// Inserting two seed pairs gives the same bits in either order.
pub proof fn lemma_insert_order_irrelevant(bits: Seq<bool>, h1: u64, h2: u64, g1: u64, g2: u64, k: nat)
    ensures
        with_probes(with_probes(bits, h1, h2, k), g1, g2, k) == with_probes(
            with_probes(bits, g1, g2, k),
            h1,
            h2,
            k,
        ),
{
    assert(with_probes(with_probes(bits, h1, h2, k), g1, g2, k) =~= with_probes(
        with_probes(bits, g1, g2, k),
        h1,
        h2,
        k,
    ));
}

/// Inserting the same seed pair again changes no bit.
pub proof fn lemma_insert_idempotent(bits: Seq<bool>, h1: u64, h2: u64, k: nat)
    ensures
        with_probes(with_probes(bits, h1, h2, k), h1, h2, k) == with_probes(bits, h1, h2, k),
{
    assert(with_probes(with_probes(bits, h1, h2, k), h1, h2, k) =~= with_probes(bits, h1, h2, k));
}

/// A union keeps present every value present in either operand.
pub proof fn lemma_union_keeps_present<S: BuildHasher + Clone>(
    a: BloomFilter<S>,
    b: BloomFilter<S>,
    u: BloomFilter<S>,
    h1: u64,
    h2: u64,
)
    requires
        a.wf(),
        b.wf(),
        u.wf(),
        a.spec_m() == b.spec_m(),
        a.spec_k() == b.spec_k(),
        u.spec_k() == a.spec_k(),
        u@ == Seq::new(a@.len(), |i: int| a@[i] || b@[i]),
        a.holds(h1, h2) || b.holds(h1, h2),
    ensures
        u.holds(h1, h2),
{
    let m = a@.len();
    assert forall|i: int| 0 <= i < u.spec_k() implies #[trigger] u@[probe(h1, h2, i, u@.len())] by {
        assert(b@.len() == m);
        if a.holds(h1, h2) {
            assert(a@[probe(h1, h2, i, m)]);
        } else {
            assert(b@[probe(h1, h2, i, m)]);
        }
    }
}

/// An intersection keeps present every value present in both operands.
pub proof fn lemma_intersect_keeps_present<S: BuildHasher + Clone>(
    a: BloomFilter<S>,
    b: BloomFilter<S>,
    x: BloomFilter<S>,
    h1: u64,
    h2: u64,
)
    requires
        a.wf(),
        b.wf(),
        x.wf(),
        a.spec_m() == b.spec_m(),
        a.spec_k() == b.spec_k(),
        x.spec_k() == a.spec_k(),
        x@ == Seq::new(a@.len(), |i: int| a@[i] && b@[i]),
        a.holds(h1, h2),
        b.holds(h1, h2),
    ensures
        x.holds(h1, h2),
{
    let m = a@.len();
    assert forall|i: int| 0 <= i < x.spec_k() implies #[trigger] x@[probe(h1, h2, i, x@.len())] by {
        assert(b@.len() == m);
        assert(a@[probe(h1, h2, i, m)]);
        assert(b@[probe(h1, h2, i, m)]);
    }
}

/// Counting insertions: along a run of insertions, each raising the counter as
/// `insert` does, the counter rises by exactly the number of insertions, as long as
/// it stays within `usize`.
pub proof fn lemma_insertions_counted<S: BuildHasher + Clone>(run: Seq<BloomFilter<S>>)
    requires
        run.len() >= 1,
        run[0].spec_items() + run.len() - 1 <= usize::MAX,
        forall|i: int|
            0 <= i < run.len() - 1 ==> #[trigger] run[i + 1].spec_items() == saturating_inc(
                run[i].spec_items(),
            ),
    ensures
        run.last().spec_items() == run[0].spec_items() + run.len() - 1,
    decreases run.len(),
{
    if run.len() > 1 {
        let head = run.drop_last();
        assert forall|i: int| 0 <= i < head.len() - 1 implies #[trigger] head[i + 1].spec_items()
            == saturating_inc(head[i].spec_items()) by {
            assert(head[i + 1] == run[i + 1] && head[i] == run[i]);
        }
        lemma_insertions_counted(head);
        let i = run.len() - 2;
        assert(run[i + 1].spec_items() == saturating_inc(run[i].spec_items()));
        assert(head.last() == run[i]);
    }
}

/// The serialized form of a filter is a valid layout that reads back its `m`,
/// its `k` and its blocks.
pub proof fn lemma_bytes_read_back<S: BuildHasher + Clone>(f: BloomFilter<S>)
    requires
        f.wf(),
    ensures
        valid_layout(f.bytes_spec()),
        meta_m(f.bytes_spec()) == f.spec_m(),
        meta_k(f.bytes_spec()) == f.spec_k(),
        decoded_blocks(f.bytes_spec()) == f.spec_words(),
{
    let w = f.spec_words();
    let n = w.len();
    let m = f.spec_m() as u64;
    let k = f.spec_k() as u32;
    let d = f.bytes_spec();
    assert(d.len() == 8 * n + 12);
    assert(d.subrange(d.len() - 12, d.len() - 4) =~= u64_le(m));
    assert(d.subrange(d.len() - 4, d.len() as int) =~= u32_le(k));
    lemma_u64_le_round_trip(m);
    lemma_u32_le_round_trip(k);
    assert(blocks_for(meta_m(d) as nat) == n);
    assert forall|j: int| 0 <= j < n implies #[trigger] d.subrange(8 * j, 8 * j + 8) == u64_le(
        w[j],
    ) by {
        assert forall|t: int| 0 <= t < 8 implies d.subrange(8 * j, 8 * j + 8)[t] == u64_le(
            w[j],
        )[t] by {
            assert((8 * j + t) / 8 == j);
            assert((8 * j + t) % 8 == t);
            assert(d[8 * j + t] == words_le(w)[8 * j + t]);
        }
        assert(d.subrange(8 * j, 8 * j + 8) =~= u64_le(w[j]));
    }
    assert forall|j: int| 0 <= j < n implies #[trigger] decoded_blocks(d)[j] == w[j] by {
        lemma_u64_le_round_trip(w[j]);
    }
    assert(decoded_blocks(d) =~= w);
}

/// Serialization round trip: a filter read back from the serialized form of `f`
/// holds the same bits as `f`, so it reports present exactly the seeds that `f` does.
pub proof fn lemma_round_trip_answers<S: BuildHasher + Clone>(
    f: BloomFilter<S>,
    g: BloomFilter<S>,
    h1: u64,
    h2: u64,
)
    requires
        f.wf(),
        g.decodes_from(f.bytes_spec(), g.spec_hasher()),
    ensures
        g@ == f@,
        g.spec_k() == f.spec_k(),
        g.holds(h1, h2) == f.holds(h1, h2),
{
    lemma_bytes_read_back(f);
    assert(g@ =~= f@);
}

} // verus!
