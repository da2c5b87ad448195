//! The remote reconciler: the terms of an existence query for a batch of
//! k-mers, and the merge of the nodes the store returned into the cache.
use crate::identity::{after_confirm, IdModel, IdentityCache};
use vstd::hash_map::StringHashMap;
use vstd::prelude::*;
use vstd::string::*;

verus! {

broadcast use vstd::string::group_string_axioms;

/// The k-mers of a batch as one query value: the k-mers in order, separated by
/// single spaces.
pub open spec fn joined_terms(kmers: Seq<Seq<char>>) -> Seq<char>
    decreases kmers.len(),
{
    if kmers.len() == 0 {
        Seq::empty()
    } else if kmers.len() == 1 {
        kmers[0]
    } else {
        joined_terms(kmers.drop_last()) + " "@ + kmers.last()
    }
}

/// The value of the term query for `kmers`.
pub fn query_terms(kmers: &Vec<String>) -> (r: String)
    ensures
        r@ == joined_terms(kmers.deep_view()),
{
    let ghost ks = kmers.deep_view();
    let mut out = String::new();
    let n = kmers.len();
    let mut i: usize = 0;
    while i < n
        invariant
            n == kmers@.len(),
            ks == kmers.deep_view(),
            i <= n,
            out@ == joined_terms(ks.take(i as int)),
        decreases n - i,
    {
        if i > 0 {
            out.append(" ");
        }
        out.append(kmers[i].as_str());
        proof {
            let kj = ks.take(i + 1);
            assert(kj.drop_last() =~= ks.take(i as int));
            assert(kj.last() == ks[i as int]);
            if i == 0 {
                assert(out@ =~= joined_terms(kj));
            }
        }
        i += 1;
    }
    assert(ks.take(n as int) =~= ks);
    out
}

/// A node that the store returned for a query: its uid and its k-mer content.
#[derive(Debug)]
pub struct StoredNode {
    pub uid: String,
    pub kmer: String,
}

/// The (uid, content) pairs of returned nodes.
pub open spec fn stored_view(found: Seq<StoredNode>) -> Seq<(Seq<char>, Seq<char>)> {
    found.map_values(|n: StoredNode| (n.uid@, n.kmer@))
}

/// The cache contents after merging the returned nodes `found`, in order:
/// a node is confirmed only where its content is exactly one of `batch`.
pub open spec fn reconciled(
    m: Map<Seq<char>, IdModel>,
    batch: Set<Seq<char>>,
    found: Seq<(Seq<char>, Seq<char>)>,
) -> Map<Seq<char>, IdModel>
    decreases found.len(),
{
    if found.len() == 0 {
        m
    } else {
        let prev = reconciled(m, batch, found.drop_last());
        let (uid, kmer) = found.last();
        if batch.contains(kmer) {
            after_confirm(prev, kmer, uid)
        } else {
            prev
        }
    }
}

/// Merges the nodes the store returned for a query on `batch` into the cache.
/// A term query may return nodes whose content is not one of the batch's
/// k-mers; only exact matches are confirmed.
pub fn reconcile(cache: &mut IdentityCache, batch: &Vec<String>, found: &Vec<StoredNode>)
    requires
        old(cache).wf(),
    ensures
        final(cache).wf(),
        final(cache)@ == reconciled(old(cache)@, batch.deep_view().to_set(), stored_view(found@)),
{
    let ghost ks = batch.deep_view();
    let mut wanted: StringHashMap<bool> = StringHashMap::new();
    let nb = batch.len();
    let mut i: usize = 0;
    while i < nb
        invariant
            nb == batch@.len(),
            ks == batch.deep_view(),
            i <= nb,
            forall|c: Seq<char>| wanted@.contains_key(c) <==> ks.take(i as int).contains(c),
        decreases nb - i,
    {
        wanted.insert(String::from_str(batch[i].as_str()), true);
        proof {
            assert forall|c: Seq<char>| wanted@.contains_key(c) <==> ks.take(i + 1).contains(c) by {
                if ks.take(i + 1).contains(c) {
                    let t = choose|t: int| 0 <= t < i + 1 && #[trigger] ks.take(i + 1)[t] == c;
                    if t < i {
                        assert(ks.take(i as int)[t] == c);
                    }
                }
                if ks.take(i as int).contains(c) {
                    let t = choose|t: int| 0 <= t < i && #[trigger] ks.take(i as int)[t] == c;
                    assert(ks.take(i + 1)[t] == c);
                }
                if c == ks[i as int] {
                    assert(ks.take(i + 1)[i as int] == c);
                }
            }
        }
        i += 1;
    }
    assert(ks.take(nb as int) =~= ks);
    let ghost bset = ks.to_set();
    let ghost fv = stored_view(found@);
    let ghost start = cache@;
    let nf = found.len();
    let mut j: usize = 0;
    while j < nf
        invariant
            nf == found@.len(),
            fv == stored_view(found@),
            j <= nf,
            forall|c: Seq<char>| wanted@.contains_key(c) <==> bset.contains(c),
            cache.wf(),
            cache@ == reconciled(start, bset, fv.take(j as int)),
        decreases nf - j,
    {
        let node = &found[j];
        if wanted.contains_key(node.kmer.as_str()) {
            cache.confirm(node.kmer.as_str(), node.uid.as_str());
        }
        proof {
            let fj = fv.take(j + 1);
            assert(fj.drop_last() =~= fv.take(j as int));
            assert(fj.last() == fv[j as int]);
        }
        j += 1;
    }
    assert(fv.take(nf as int) =~= fv);
}

} // verus!
