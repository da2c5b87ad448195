//! The mutation builder: node and edge statements for consecutive k-mers, and
//! their rendering as N-Quad lines.
use crate::identity::{after_lookup, IdModel, IdentityCache, NodeId};
use vstd::prelude::*;
use vstd::string::*;

verus! {

broadcast use vstd::string::group_string_axioms;

/// The N-Quad term that names a node: `<uid>` for a confirmed node, the blank
/// node `_:k<kmer>` for a placeholder.
pub open spec fn id_term(id: IdModel) -> Seq<char> {
    match id {
        IdModel::Confirmed(uid) => "<"@ + uid + ">"@,
        IdModel::Placeholder(kmer) => "_:k"@ + kmer,
    }
}

impl NodeId {
    /// The N-Quad term for this identity.
    pub fn term(&self) -> (r: String)
        ensures
            r@ == id_term(self@),
    {
        match self {
            NodeId::Confirmed(uid) => {
                let mut t = String::from_str("<");
                t.append(uid.as_str());
                t.append(">");
                t
            },
            NodeId::Placeholder(kmer) => {
                let mut t = String::from_str("_:k");
                t.append(kmer.as_str());
                t
            },
        }
    }
}

/// What a mutation statement is in contracts.
pub enum StatementModel {
    Node { id: IdModel, kmer: Seq<char> },
    Edge { from: IdModel, to: IdModel, genome: Seq<char> },
}

/// One graph change: declare node `id` with content `kmer`, or declare a
/// directed edge between two nodes labelled by a genome.
#[derive(Debug, PartialEq, Eq)]
pub enum Statement {
    Node { id: NodeId, kmer: String },
    Edge { from: NodeId, to: NodeId, genome: String },
}

impl View for Statement {
    type V = StatementModel;

    open spec fn view(&self) -> StatementModel {
        match self {
            Statement::Node { id, kmer } => StatementModel::Node { id: id@, kmer: kmer@ },
            Statement::Edge { from, to, genome } => StatementModel::Edge {
                from: from@,
                to: to@,
                genome: genome@,
            },
        }
    }
}

pub open spec fn statements_view(v: Seq<Statement>) -> Seq<StatementModel> {
    v.map_values(|s: Statement| s@)
}

/// The N-Quad line of a statement, without its line break.
pub open spec fn nquad(s: StatementModel) -> Seq<char> {
    match s {
        StatementModel::Node { id, kmer } => id_term(id) + " <kmer> \""@ + kmer + "\" ."@,
        StatementModel::Edge { from, to, genome } => id_term(from) + " <"@ + genome + "> "@
            + id_term(to) + " ."@,
    }
}

impl Statement {
    /// The N-Quad line of this statement, without its line break.
    pub fn to_nquad(&self) -> (r: String)
        ensures
            r@ == nquad(self@),
    {
        match self {
            Statement::Node { id, kmer } => {
                let mut line = id.term();
                line.append(" <kmer> \"");
                line.append(kmer.as_str());
                line.append("\" .");
                line
            },
            Statement::Edge { from, to, genome } => {
                let mut line = from.term();
                line.append(" <");
                line.append(genome.as_str());
                line.append("> ");
                let t = to.term();
                line.append(t.as_str());
                line.append(" .");
                line
            },
        }
    }
}

/// The cache contents after looking up each of `kmers` in order.
pub open spec fn reserve_all(m: Map<Seq<char>, IdModel>, kmers: Seq<Seq<char>>) -> Map<
    Seq<char>,
    IdModel,
>
    decreases kmers.len(),
{
    if kmers.len() == 0 {
        m
    } else {
        after_lookup(reserve_all(m, kmers.drop_last()), kmers.last())
    }
}

/// The three statements for the consecutive k-mers `a` and `b`, under the
/// identities of cache contents `m`: both nodes, then the edge between them.
pub open spec fn pair_statements(
    m: Map<Seq<char>, IdModel>,
    a: Seq<char>,
    b: Seq<char>,
    genome: Seq<char>,
) -> Seq<StatementModel> {
    seq![
        StatementModel::Node { id: m[a], kmer: a },
        StatementModel::Node { id: m[b], kmer: b },
        StatementModel::Edge { from: m[a], to: m[b], genome },
    ]
}

/// The statements for every consecutive pair of `kmers`, in order.
pub open spec fn link_statements(
    m: Map<Seq<char>, IdModel>,
    kmers: Seq<Seq<char>>,
    genome: Seq<char>,
) -> Seq<StatementModel>
    decreases kmers.len(),
{
    if kmers.len() < 2 {
        Seq::empty()
    } else {
        link_statements(m, kmers.drop_last(), genome) + pair_statements(
            m,
            kmers[kmers.len() - 2],
            kmers.last(),
            genome,
        )
    }
}

proof fn lemma_link_statements_len(
    m: Map<Seq<char>, IdModel>,
    kmers: Seq<Seq<char>>,
    genome: Seq<char>,
)
    ensures
        kmers.len() >= 1 ==> link_statements(m, kmers, genome).len() == 3 * (kmers.len() - 1),
        kmers.len() == 0 ==> link_statements(m, kmers, genome).len() == 0,
    decreases kmers.len(),
{
    if kmers.len() >= 2 {
        lemma_link_statements_len(m, kmers.drop_last(), genome);
    }
}

proof fn lemma_link_statements_agree(
    m: Map<Seq<char>, IdModel>,
    m2: Map<Seq<char>, IdModel>,
    kmers: Seq<Seq<char>>,
    genome: Seq<char>,
)
    requires
        forall|i: int| 0 <= i < kmers.len() ==> m2[#[trigger] kmers[i]] == m[kmers[i]],
    ensures
        link_statements(m, kmers, genome) == link_statements(m2, kmers, genome),
    decreases kmers.len(),
{
    if kmers.len() >= 2 {
        let init = kmers.drop_last();
        assert forall|i: int| 0 <= i < init.len() implies m2[#[trigger] init[i]] == m[init[i]] by {
            assert(init[i] == kmers[i]);
        }
        lemma_link_statements_agree(m, m2, init, genome);
        assert(m2[kmers[kmers.len() - 2]] == m[kmers[kmers.len() - 2]]);
        assert(m2[kmers[kmers.len() - 1]] == m[kmers[kmers.len() - 1]]);
    }
}

proof fn lemma_reserve_all_covers(m: Map<Seq<char>, IdModel>, kmers: Seq<Seq<char>>)
    ensures
        forall|i: int|
            0 <= i < kmers.len() ==> #[trigger] reserve_all(m, kmers).contains_key(kmers[i]),
        forall|c: Seq<char>| #[trigger]
            m.contains_key(c) ==> reserve_all(m, kmers).contains_key(c) && reserve_all(m, kmers)[c]
                == m[c],
    decreases kmers.len(),
{
    if kmers.len() > 0 {
        let init = kmers.drop_last();
        lemma_reserve_all_covers(m, init);
        assert(reserve_all(m, kmers) == after_lookup(reserve_all(m, init), kmers.last()));
        assert forall|i: int| 0 <= i < kmers.len() implies #[trigger] reserve_all(
            m,
            kmers,
        ).contains_key(kmers[i]) by {
            if i < kmers.len() - 1 {
                assert(init[i] == kmers[i]);
                assert(reserve_all(m, init).contains_key(init[i]));
            }
        }
    }
}

/// Every edge statement is immediately preceded by the declarations of the two
/// nodes it joins, and the statements come in such triples.
pub open spec fn nodes_precede_edges(s: Seq<StatementModel>) -> bool {
    &&& s.len() % 3 == 0
    &&& forall|j: int| 0 <= j < s.len() ==> (#[trigger] s[j] is Edge <==> j % 3 == 2)
    &&& forall|j: int|
        0 <= j < s.len() && #[trigger] s[j] is Edge ==> {
            &&& s[j - 2] is Node
            &&& s[j - 2]->Node_id == s[j]->Edge_from
            &&& s[j - 1] is Node
            &&& s[j - 1]->Node_id == s[j]->Edge_to
        }
}

/// In the statements built for any k-mer sequence, every edge statement comes
/// right after the declarations of both nodes it references.
pub proof fn lemma_nodes_precede_edges(
    m: Map<Seq<char>, IdModel>,
    kmers: Seq<Seq<char>>,
    genome: Seq<char>,
)
    ensures
        nodes_precede_edges(link_statements(m, kmers, genome)),
{
    lemma_link_statements_nodes_first(m, kmers, genome);
}

/// Cutting statements in which nodes precede edges at whole triples, as a
/// batch is cut, keeps nodes before edges within the cut.
pub proof fn lemma_triples_subrange(s: Seq<StatementModel>, a: int, b: int)
    requires
        nodes_precede_edges(s),
        0 <= a <= b <= s.len(),
        a % 3 == 0,
        b % 3 == 0,
    ensures
        nodes_precede_edges(s.subrange(a, b)),
{
    let t = s.subrange(a, b);
    lemma_shift_mod3(a, b - a);
    assert forall|j: int| 0 <= j < t.len() implies (#[trigger] t[j] is Edge <==> j % 3 == 2) by {
        lemma_shift_mod3(a, j);
        assert(t[j] == s[a + j]);
    }
    assert forall|j: int| 0 <= j < t.len() && #[trigger] t[j] is Edge implies {
        &&& t[j - 2] is Node
        &&& t[j - 2]->Node_id == t[j]->Edge_from
        &&& t[j - 1] is Node
        &&& t[j - 1]->Node_id == t[j]->Edge_to
    } by {
        lemma_shift_mod3(a, j);
        assert(t[j] == s[a + j]);
        assert(s[a + j] is Edge);
        assert(t[j - 2] == s[a + j - 2]);
        assert(t[j - 1] == s[a + j - 1]);
    }
}

proof fn lemma_shift_mod3(a: int, j: int)
    requires
        a % 3 == 0,
    ensures
        (a + j) % 3 == j % 3,
{
}

proof fn lemma_link_statements_nodes_first(
    m: Map<Seq<char>, IdModel>,
    kmers: Seq<Seq<char>>,
    genome: Seq<char>,
)
    ensures
        nodes_precede_edges(link_statements(m, kmers, genome)),
    decreases kmers.len(),
{
    lemma_link_statements_len(m, kmers, genome);
    if kmers.len() >= 2 {
        let init = kmers.drop_last();
        lemma_link_statements_nodes_first(m, init, genome);
        lemma_link_statements_len(m, init, genome);
        let p = link_statements(m, init, genome);
        let s = link_statements(m, kmers, genome);
        let q = pair_statements(m, kmers[kmers.len() - 2], kmers.last(), genome);
        assert(s == p + q);
        assert forall|j: int| 0 <= j < s.len() implies (#[trigger] s[j] is Edge <==> j % 3 == 2) by {
            if j < p.len() {
                assert(s[j] == p[j]);
            } else {
                assert(s[j] == q[j - p.len()]);
            }
        }
        assert forall|j: int| 0 <= j < s.len() && #[trigger] s[j] is Edge implies {
            &&& s[j - 2] is Node
            &&& s[j - 2]->Node_id == s[j]->Edge_from
            &&& s[j - 1] is Node
            &&& s[j - 1]->Node_id == s[j]->Edge_to
        } by {
            if j < p.len() {
                assert(s[j] == p[j]);
                assert(s[j - 2] == p[j - 2]);
                assert(s[j - 1] == p[j - 1]);
            } else {
                assert(s[j] == q[j - p.len()]);
                assert(j == p.len() + 2);
                assert(s[j - 2] == q[0]);
                assert(s[j - 1] == q[1]);
            }
        }
    }
}

/// Builds the statements for every consecutive pair of `kmers`: both node
/// declarations, then the edge labelled `genome`. Each k-mer's identity is
/// looked up in the cache, which reserves a placeholder for a content seen for
/// the first time; every later occurrence reuses it.
pub fn create_kmer_links(kmers: &Vec<String>, cache: &mut IdentityCache, genome: &str) -> (r: Vec<
    Statement,
>)
    requires
        old(cache).wf(),
    ensures
        final(cache).wf(),
        kmers@.len() >= 2 ==> final(cache)@ == reserve_all(old(cache)@, kmers.deep_view()),
        kmers@.len() < 2 ==> final(cache)@ == old(cache)@,
        statements_view(r@) == link_statements(final(cache)@, kmers.deep_view(), genome@),
{
    let ghost ks = kmers.deep_view();
    let ghost start = cache@;
    let n = kmers.len();
    let mut out: Vec<Statement> = Vec::new();
    if n < 2 {
        assert(statements_view(out@) =~= link_statements(cache@, ks, genome@));
        return out;
    }
    let mut prev = cache.lookup_or_reserve(kmers[0].as_str());
    proof {
        assert(ks.take(1).drop_last() =~= ks.take(0));
        assert(ks.take(0) =~= Seq::<Seq<char>>::empty());
        assert(reserve_all(start, ks.take(1).drop_last()) == start);
        assert(ks.take(1).last() == ks[0]);
        assert(cache@ == reserve_all(start, ks.take(1)));
        assert(statements_view(out@) =~= link_statements(cache@, ks.take(1), genome@));
    }
    let mut i: usize = 1;
    while i < n
        invariant
            n == kmers@.len(),
            ks == kmers.deep_view(),
            1 <= i <= n,
            cache.wf(),
            cache@ == reserve_all(start, ks.take(i as int)),
            prev@ == cache@[ks[i - 1]],
            statements_view(out@) == link_statements(cache@, ks.take(i as int), genome@),
        decreases n - i,
    {
        let ghost before = cache@;
        let next = cache.lookup_or_reserve(kmers[i].as_str());
        proof {
            let ki = ks.take(i as int);
            let kj = ks.take(i + 1);
            assert(kj.drop_last() =~= ki);
            assert(kj.last() == ks[i as int]);
            lemma_reserve_all_covers(start, ki);
            assert forall|t: int| 0 <= t < ki.len() implies cache@[#[trigger] ki[t]]
                == before[ki[t]] by {
                assert(before.contains_key(ki[t]));
            }
            lemma_link_statements_agree(before, cache@, ki, genome@);
            assert(ki[i - 1] == ks[i - 1]);
            assert(before.contains_key(ks[i - 1]));
        }
        out.push(Statement::Node { id: prev.duplicate(), kmer: String::from_str(kmers[i - 1].as_str()) });
        out.push(Statement::Node { id: next.duplicate(), kmer: String::from_str(kmers[i].as_str()) });
        out.push(Statement::Edge { from: prev, to: next.duplicate(), genome: String::from_str(genome) });
        proof {
            let kj = ks.take(i + 1);
            assert(kj[kj.len() - 2] == ks[i - 1]);
            assert(kj.last() == ks[i as int]);
            assert(kj.drop_last() =~= ks.take(i as int));
            assert(statements_view(out@) =~= link_statements(cache@, kj, genome@));
        }
        prev = next;
        i += 1;
    }
    assert(ks.take(n as int) =~= ks);
    out
}

} // verus!
