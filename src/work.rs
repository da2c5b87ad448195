//! Work chunks: a contig's k-mers cut into bounded runs that overlap by one
//! k-mer, so that every consecutive pair falls in exactly one run.
use crate::identity::IdModel;
use crate::mutation::{link_statements, StatementModel};
use vstd::prelude::*;

verus! {

/// The work chunks of the k-mers `[start, n)`: runs of at most `size` k-mers,
/// each one starting at the last k-mer of the one before.
pub open spec fn work_bounds(start: nat, n: nat, size: nat) -> Seq<(nat, nat)>
    decreases n - start,
{
    if size < 2 || start + 1 >= n {
        Seq::empty()
    } else if n - start <= size {
        seq![(start, n)]
    } else {
        seq![(start, (start + size) as nat)] + work_bounds((start + size - 1) as nat, n, size)
    }
}

/// The statements of each chunk of `bounds` over `kmers`, one after another.
pub open spec fn chunked_statements(
    m: Map<Seq<char>, IdModel>,
    kmers: Seq<Seq<char>>,
    genome: Seq<char>,
    bounds: Seq<(nat, nat)>,
) -> Seq<StatementModel>
    decreases bounds.len(),
{
    if bounds.len() == 0 {
        Seq::empty()
    } else {
        link_statements(m, kmers.subrange(bounds[0].0 as int, bounds[0].1 as int), genome)
            + chunked_statements(m, kmers, genome, bounds.drop_first())
    }
}


proof fn lemma_link_statements_split(
    m: Map<Seq<char>, IdModel>,
    kmers: Seq<Seq<char>>,
    genome: Seq<char>,
    a: int,
    b: int,
    c: int,
)
    requires
        0 <= a < b <= c <= kmers.len(),
    ensures
        link_statements(m, kmers.subrange(a, b), genome) + link_statements(
            m,
            kmers.subrange(b - 1, c),
            genome,
        ) == link_statements(m, kmers.subrange(a, c), genome),
    decreases c - b,
{
    if c == b {
        assert(kmers.subrange(b - 1, c).len() == 1);
        assert(link_statements(m, kmers.subrange(a, b), genome) + link_statements(
            m,
            kmers.subrange(b - 1, c),
            genome,
        ) =~= link_statements(m, kmers.subrange(a, c), genome));
    } else {
        lemma_link_statements_split(m, kmers, genome, a, b, c - 1);
        let whole = kmers.subrange(a, c);
        let right = kmers.subrange(b - 1, c);
        assert(whole.drop_last() =~= kmers.subrange(a, c - 1));
        assert(right.drop_last() =~= kmers.subrange(b - 1, c - 1));
        assert(whole[whole.len() - 2] == right[right.len() - 2]);
        assert(whole.last() == right.last());
        assert(link_statements(m, kmers.subrange(a, b), genome) + link_statements(
            m,
            right,
            genome,
        ) =~= link_statements(m, whole, genome));
    }
}

/// Building the statements chunk by chunk over the work chunks of a k-mer
/// sequence, under the same identities, gives exactly the statements built
/// over the whole sequence: no pair is lost at a chunk boundary and none is
/// built twice. Every chunk holds between two and `size` k-mers.
pub proof fn lemma_work_chunks_cover(
    m: Map<Seq<char>, IdModel>,
    kmers: Seq<Seq<char>>,
    genome: Seq<char>,
    start: nat,
    size: nat,
)
    requires
        size >= 2,
        start <= kmers.len(),
    ensures
        chunked_statements(m, kmers, genome, work_bounds(start, kmers.len(), size))
            == link_statements(m, kmers.subrange(start as int, kmers.len() as int), genome),
        forall|j: int|
            0 <= j < work_bounds(start, kmers.len(), size).len() ==> {
                let r = #[trigger] work_bounds(start, kmers.len(), size)[j];
                start <= r.0 && r.0 + 2 <= r.1 <= r.0 + size && r.1 <= kmers.len()
            },
    decreases kmers.len() - start,
{
    let n = kmers.len();
    let b = work_bounds(start, n, size);
    if start + 1 >= n {
        assert(chunked_statements(m, kmers, genome, b) =~= link_statements(
            m,
            kmers.subrange(start as int, n as int),
            genome,
        ));
    } else if n - start <= size {
        assert(b == seq![(start, n)]);
        assert(b.drop_first() =~= Seq::<(nat, nat)>::empty());
        assert(chunked_statements(m, kmers, genome, b.drop_first()) == Seq::<StatementModel>::empty());
        assert(b[0].0 == start && b[0].1 == n);
        assert(chunked_statements(m, kmers, genome, b) =~= link_statements(
            m,
            kmers.subrange(start as int, n as int),
            genome,
        ));
    } else {
        let next = (start + size - 1) as nat;
        lemma_work_chunks_cover(m, kmers, genome, next, size);
        let rest = work_bounds(next, n, size);
        assert(b == seq![(start, (start + size) as nat)] + rest);
        assert(b.drop_first() =~= rest);
        lemma_link_statements_split(m, kmers, genome, start as int, (start + size) as int, n as int);
        assert forall|j: int| 0 < j < b.len() implies #[trigger] b[j] == rest[j - 1] by {}
    }
}

/// The work chunks of `n` k-mers for chunks of at most `size` k-mers.
pub fn work_ranges(n: usize, size: usize) -> (r: Vec<(usize, usize)>)
    requires
        size >= 2,
    ensures
        r@.len() == work_bounds(0, n as nat, size as nat).len(),
        forall|j: int|
            0 <= j < r@.len() ==> (#[trigger] r@[j]).0 as nat == work_bounds(
                0,
                n as nat,
                size as nat,
            )[j].0 && r@[j].1 as nat == work_bounds(0, n as nat, size as nat)[j].1,
{
    let ghost all = work_bounds(0, n as nat, size as nat);
    let mut out: Vec<(usize, usize)> = Vec::new();
    let mut start: usize = 0;
    while n - start > 1
        invariant
            size >= 2,
            start <= n,
            start < n || n == 0,
            all == work_bounds(0, n as nat, size as nat),
            all == out@.map_values(|p: (usize, usize)| (p.0 as nat, p.1 as nat)) + work_bounds(
                start as nat,
                n as nat,
                size as nat,
            ),
        decreases n - start,
    {
        let ghost before = out@.map_values(|p: (usize, usize)| (p.0 as nat, p.1 as nat));
        if n - start <= size {
            out.push((start, n));
            proof {
                let now = out@.map_values(|p: (usize, usize)| (p.0 as nat, p.1 as nat));
                assert(now =~= before.push((start as nat, n as nat)));
                assert(now =~= all);
            }
            start = n - 1;
            proof {
                assert(work_bounds(start as nat, n as nat, size as nat) =~= Seq::<(nat, nat)>::empty());
                assert(all =~= out@.map_values(|p: (usize, usize)| (p.0 as nat, p.1 as nat))
                    + work_bounds(start as nat, n as nat, size as nat));
            }
        } else {
            out.push((start, start + size));
            proof {
                let now = out@.map_values(|p: (usize, usize)| (p.0 as nat, p.1 as nat));
                assert(now =~= before.push((start as nat, (start + size) as nat)));
                assert(now + work_bounds((start + size - 1) as nat, n as nat, size as nat) =~= before
                    + work_bounds(start as nat, n as nat, size as nat));
            }
            start = start + size - 1;
        }
    }
    proof {
        assert(work_bounds(start as nat, n as nat, size as nat) =~= Seq::<(nat, nat)>::empty());
        assert(out@.map_values(|p: (usize, usize)| (p.0 as nat, p.1 as nat)) =~= all);
    }
    assert forall|j: int| 0 <= j < out@.len() implies (#[trigger] out@[j]).0 as nat == all[j].0
        && out@[j].1 as nat == all[j].1 by {
        assert(all[j] == out@.map_values(|p: (usize, usize)| (p.0 as nat, p.1 as nat))[j]);
    }
    out
}

} // verus!
