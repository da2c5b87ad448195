//! Node identities and the identity cache, which holds at most one identity
//! for each k-mer content and only ever upgrades a placeholder to a confirmed one.
use vstd::hash_map::StringHashMap;
use vstd::prelude::*;
use vstd::string::*;

verus! {

broadcast use vstd::string::group_string_axioms;

/// What a node identity is in contracts: a uid that the store assigned, or a
/// placeholder minted locally for a k-mer content.
pub enum IdModel {
    Confirmed(Seq<char>),
    Placeholder(Seq<char>),
}

impl IdModel {
    pub open spec fn is_confirmed(self) -> bool {
        self is Confirmed
    }
}

/// The token naming a graph node: `Confirmed` holds the store's uid for the
/// node, `Placeholder` the k-mer content that a new node is to be created for.
#[derive(Debug, PartialEq, Eq)]
pub enum NodeId {
    Confirmed(String),
    Placeholder(String),
}

impl View for NodeId {
    type V = IdModel;

    open spec fn view(&self) -> IdModel {
        match self {
            NodeId::Confirmed(uid) => IdModel::Confirmed(uid@),
            NodeId::Placeholder(kmer) => IdModel::Placeholder(kmer@),
        }
    }
}

impl NodeId {
    /// A copy of this identity.
    pub fn duplicate(&self) -> (r: NodeId)
        ensures
            r@ == self@,
    {
        match self {
            NodeId::Confirmed(uid) => NodeId::Confirmed(uid.clone()),
            NodeId::Placeholder(kmer) => NodeId::Placeholder(kmer.clone()),
        }
    }

    /// Whether the store has confirmed this identity.
    pub fn is_confirmed(&self) -> (r: bool)
        ensures
            r == self@.is_confirmed(),
    {
        match self {
            NodeId::Confirmed(_) => true,
            NodeId::Placeholder(_) => false,
        }
    }
}

/// The identity a lookup of `kmer` gives on cache contents `m`: the cached one,
/// or else the placeholder for `kmer`.
pub open spec fn lookup_result(m: Map<Seq<char>, IdModel>, kmer: Seq<char>) -> IdModel {
    if m.contains_key(kmer) {
        m[kmer]
    } else {
        IdModel::Placeholder(kmer)
    }
}

/// The cache contents after a lookup of `kmer`: a placeholder is reserved for
/// a content seen for the first time, and nothing else changes.
pub open spec fn after_lookup(m: Map<Seq<char>, IdModel>, kmer: Seq<char>) -> Map<Seq<char>, IdModel> {
    if m.contains_key(kmer) {
        m
    } else {
        m.insert(kmer, IdModel::Placeholder(kmer))
    }
}

/// The cache contents after confirming `kmer` as the store node `uid`.
pub open spec fn after_confirm(
    m: Map<Seq<char>, IdModel>,
    kmer: Seq<char>,
    uid: Seq<char>,
) -> Map<Seq<char>, IdModel> {
    m.insert(kmer, IdModel::Confirmed(uid))
}

/// Cache contents are consistent when each placeholder is the one for the
/// content it is filed under.
pub open spec fn cache_wf(m: Map<Seq<char>, IdModel>) -> bool {
    forall|c: Seq<char>|
        #[trigger] m.contains_key(c) && m[c] is Placeholder ==> m[c] == IdModel::Placeholder(c)
}

/// One operation on the identity cache.
pub enum CacheOp {
    Lookup(Seq<char>),
    Confirm(Seq<char>, Seq<char>),
}

pub open spec fn apply_op(m: Map<Seq<char>, IdModel>, op: CacheOp) -> Map<Seq<char>, IdModel> {
    match op {
        CacheOp::Lookup(c) => after_lookup(m, c),
        CacheOp::Confirm(c, uid) => after_confirm(m, c, uid),
    }
}

/// The cache contents after the operations `ops`, in order.
pub open spec fn run_ops(m: Map<Seq<char>, IdModel>, ops: Seq<CacheOp>) -> Map<Seq<char>, IdModel>
    decreases ops.len(),
{
    if ops.len() == 0 {
        m
    } else {
        apply_op(run_ops(m, ops.drop_last()), ops.last())
    }
}

proof fn lemma_run_step(m: Map<Seq<char>, IdModel>, ops: Seq<CacheOp>, j: int)
    requires
        0 <= j < ops.len(),
    ensures
        run_ops(m, ops.take(j + 1)) == apply_op(run_ops(m, ops.take(j)), ops[j]),
{
    assert(ops.take(j + 1).drop_last() =~= ops.take(j));
}

proof fn lemma_run_wf(m: Map<Seq<char>, IdModel>, ops: Seq<CacheOp>)
    requires
        cache_wf(m),
    ensures
        cache_wf(run_ops(m, ops)),
    decreases ops.len(),
{
    if ops.len() > 0 {
        lemma_run_wf(m, ops.drop_last());
        let prev = run_ops(m, ops.drop_last());
        let cur = run_ops(m, ops);
        assert forall|d: Seq<char>| #[trigger]
            cur.contains_key(d) && cur[d] is Placeholder implies cur[d] == IdModel::Placeholder(d) by {
            if prev.contains_key(d) {
            }
        }
    }
}

proof fn lemma_run_keeps_confirmed(m: Map<Seq<char>, IdModel>, ops: Seq<CacheOp>, c: Seq<char>)
    requires
        m.contains_key(c),
        m[c].is_confirmed(),
    ensures
        run_ops(m, ops).contains_key(c),
        run_ops(m, ops)[c].is_confirmed(),
    decreases ops.len(),
{
    if ops.len() > 0 {
        lemma_run_keeps_confirmed(m, ops.drop_last(), c);
    }
}

/// Over any run of lookups and confirmations: the cache stays consistent; the
/// identity a lookup returns is the one identity the cache then holds for that
/// content; and once a content is confirmed, it stays confirmed and no later
/// lookup of it returns a placeholder.
pub proof fn lemma_identity_invariant(m: Map<Seq<char>, IdModel>, ops: Seq<CacheOp>, c: Seq<char>)
    requires
        cache_wf(m),
    ensures
        cache_wf(run_ops(m, ops)),
        forall|j: int|
            0 <= j < ops.len() && ops[j] == CacheOp::Lookup(c) ==> run_ops(m, ops.take(j + 1))[c]
                == lookup_result(#[trigger] run_ops(m, ops.take(j)), c),
        m.contains_key(c) && m[c].is_confirmed() ==> {
            &&& run_ops(m, ops).contains_key(c)
            &&& run_ops(m, ops)[c].is_confirmed()
            &&& forall|j: int|
                0 <= j < ops.len() && ops[j] == CacheOp::Lookup(c) ==> lookup_result(
                    #[trigger] run_ops(m, ops.take(j)),
                    c,
                ).is_confirmed()
        },
{
    lemma_run_wf(m, ops);
    assert forall|j: int| 0 <= j < ops.len() && ops[j] == CacheOp::Lookup(c) implies run_ops(
        m,
        ops.take(j + 1),
    )[c] == lookup_result(#[trigger] run_ops(m, ops.take(j)), c) by {
        lemma_run_step(m, ops, j);
    }
    if m.contains_key(c) && m[c].is_confirmed() {
        lemma_run_keeps_confirmed(m, ops, c);
        assert forall|j: int| 0 <= j < ops.len() && ops[j] == CacheOp::Lookup(c) implies lookup_result(
            #[trigger] run_ops(m, ops.take(j)),
            c,
        ).is_confirmed() by {
            lemma_run_keeps_confirmed(m, ops.take(j), c);
        }
    }
}

/// Confirming a content twice with the same uid leaves the cache as confirming
/// it once does.
pub proof fn lemma_confirm_idempotent(m: Map<Seq<char>, IdModel>, kmer: Seq<char>, uid: Seq<char>)
    ensures
        after_confirm(after_confirm(m, kmer, uid), kmer, uid) == after_confirm(m, kmer, uid),
{
    assert(after_confirm(after_confirm(m, kmer, uid), kmer, uid) =~= after_confirm(m, kmer, uid));
}

/// The map from k-mer content to node identity shared by all the work of one run.
pub struct IdentityCache {
    ids: StringHashMap<NodeId>,
}

impl View for IdentityCache {
    type V = Map<Seq<char>, IdModel>;

    closed spec fn view(&self) -> Map<Seq<char>, IdModel> {
        self.ids@.map_values(|id: NodeId| id@)
    }
}

impl IdentityCache {
    pub open spec fn wf(&self) -> bool {
        cache_wf(self@)
    }

    /// An empty cache.
    pub fn new() -> (r: IdentityCache)
        ensures
            r@ == Map::<Seq<char>, IdModel>::empty(),
            r.wf(),
    {
        let r = IdentityCache { ids: StringHashMap::new() };
        assert(r@ =~= Map::<Seq<char>, IdModel>::empty());
        r
    }

    /// The identity cached for `kmer`, if any, without reserving one.
    pub fn get(&self, kmer: &str) -> (r: Option<NodeId>)
        ensures
            match r {
                Some(id) => self@.contains_key(kmer@) && id@ == self@[kmer@],
                None => !self@.contains_key(kmer@),
            },
    {
        match self.ids.get(kmer) {
            Some(id) => Some(id.duplicate()),
            None => None,
        }
    }

    /// The identity cached for `kmer`; where there is none, a placeholder for
    /// `kmer` is reserved in the cache and returned.
    pub fn lookup_or_reserve(&mut self, kmer: &str) -> (r: NodeId)
        requires
            old(self).wf(),
        ensures
            final(self).wf(),
            r@ == lookup_result(old(self)@, kmer@),
            final(self)@ == after_lookup(old(self)@, kmer@),
            final(self)@[kmer@] == r@,
    {
        match self.ids.get(kmer) {
            Some(id) => id.duplicate(),
            None => {
                let id = NodeId::Placeholder(String::from_str(kmer));
                let r = id.duplicate();
                self.ids.insert(String::from_str(kmer), id);
                assert(self@ =~= after_lookup(old(self)@, kmer@));
                r
            },
        }
    }

    /// Records that the store holds the node `uid` for `kmer`, replacing a
    /// placeholder if there was one.
    pub fn confirm(&mut self, kmer: &str, uid: &str)
        requires
            old(self).wf(),
        ensures
            final(self).wf(),
            final(self)@ == after_confirm(old(self)@, kmer@, uid@),
    {
        self.ids.insert(String::from_str(kmer), NodeId::Confirmed(String::from_str(uid)));
        assert(self@ =~= after_confirm(old(self)@, kmer@, uid@));
    }
}

} // verus!
