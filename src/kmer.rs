//! The sequence windower: a contig's sequence as its ordered, overlapping k-mers.
use vstd::prelude::*;
use vstd::string::*;

verus! {

broadcast use vstd::string::group_string_axioms;

/// The k-mers of `s` for a length `k` of at least one: every run of `k`
/// consecutive symbols, from left to right. A sequence shorter than `k` has none.
pub open spec fn kmer_windows(s: Seq<char>, k: nat) -> Seq<Seq<char>> {
    if k == 0 || k > s.len() {
        Seq::empty()
    } else {
        Seq::new((s.len() - k + 1) as nat, |i: int| s.subrange(i, i + k))
    }
}

/// Joins overlapping k-mers back into one sequence: the first k-mer whole, then
/// the last symbol of each one after it.
pub open spec fn overlap_join(ws: Seq<Seq<char>>) -> Seq<char> {
    if ws.len() == 0 {
        Seq::empty()
    } else {
        ws[0] + Seq::new((ws.len() - 1) as nat, |i: int| ws[i + 1].last())
    }
}

/// Windowing a sequence of length `L` into k-mers with `1 <= k <= L` gives
/// `L - k + 1` k-mers, each of length `k`, and joining their overlaps gives
/// the sequence back; with `k > L` it gives none.
pub proof fn lemma_windowing(s: Seq<char>, k: nat)
    requires
        k >= 1,
    ensures
        k <= s.len() ==> kmer_windows(s, k).len() == s.len() - k + 1,
        k <= s.len() ==> forall|i: int|
            0 <= i < kmer_windows(s, k).len() ==> (#[trigger] kmer_windows(s, k)[i]).len() == k,
        k <= s.len() ==> overlap_join(kmer_windows(s, k)) == s,
        k > s.len() ==> kmer_windows(s, k).len() == 0,
{
    if k <= s.len() {
        let ws = kmer_windows(s, k);
        let tail = Seq::new((ws.len() - 1) as nat, |i: int| ws[i + 1].last());
        assert(ws[0] == s.subrange(0, k as int));
        assert forall|i: int| 0 <= i < tail.len() implies tail[i] == s[k + i] by {
            assert(ws[i + 1] == s.subrange(i + 1, i + 1 + k));
        }
        assert(overlap_join(ws) =~= s);
    }
}

/// One contig of a genome: its name, its sequence, and the run's k-mer length.
pub struct ContigKmers {
    pub name: String,
    pub contig_seq: String,
    pub kmer_length: usize,
}

impl ContigKmers {
    /// The k-mers of the contig's sequence, in order.
    pub fn get_kmers_contig(&self) -> (r: Vec<String>)
        requires
            self.kmer_length >= 1,
        ensures
            r.deep_view() == kmer_windows(self.contig_seq@, self.kmer_length as nat),
    {
        let s = self.contig_seq.as_str();
        let k = self.kmer_length;
        let n = s.unicode_len();
        let ghost ws = kmer_windows(s@, k as nat);
        let mut out: Vec<String> = Vec::new();
        if k > n {
            assert(out.deep_view() =~= ws);
            return out;
        }
        let ascii = s.is_ascii();
        let last = n - k;
        let mut i: usize = 0;
        while i <= last
            invariant
                s@ == self.contig_seq@,
                n == s@.len(),
                1 <= k <= n,
                last == n - k,
                ascii == s.is_ascii(),
                ws == kmer_windows(s@, k as nat),
                i <= last + 1,
                out.deep_view() =~= ws.take(i as int),
            decreases last + 1 - i,
        {
            let w = if ascii {
                s.substring_ascii(i, i + k)
            } else {
                s.substring_char(i, i + k)
            };
            let owned = String::from_str(w);
            assert(owned@ == ws[i as int]);
            let ghost prev = out.deep_view();
            out.push(owned);
            assert(out.deep_view() =~= prev.push(ws[i as int]));
            assert(ws.take(i as int + 1) =~= ws.take(i as int).push(ws[i as int]));
            i += 1;
        }
        out
    }
}

} // verus!
