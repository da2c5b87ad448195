use cyno::identity::{IdentityCache, NodeId};
use cyno::reconcile::{query_terms, reconcile, StoredNode};

fn node(uid: &str, kmer: &str) -> StoredNode {
    StoredNode {
        uid: uid.to_string(),
        kmer: kmer.to_string(),
    }
}

#[test]
fn lookup_reserves_one_placeholder() {
    let mut cache = IdentityCache::new();
    let first = cache.lookup_or_reserve("ACGT");
    assert_eq!(first, NodeId::Placeholder("ACGT".to_string()));
    let second = cache.lookup_or_reserve("ACGT");
    assert_eq!(second, first);
    assert_eq!(cache.get("ACGT"), Some(first));
    assert_eq!(cache.get("TTTT"), None);
}

#[test]
fn confirm_replaces_placeholder() {
    let mut cache = IdentityCache::new();
    cache.lookup_or_reserve("ACGT");
    cache.confirm("ACGT", "0x1a");
    let id = cache.lookup_or_reserve("ACGT");
    assert_eq!(id, NodeId::Confirmed("0x1a".to_string()));
    assert!(id.is_confirmed());
}

#[test]
fn confirm_inserts_absent_content() {
    let mut cache = IdentityCache::new();
    cache.confirm("GGGG", "0x2");
    assert_eq!(cache.get("GGGG"), Some(NodeId::Confirmed("0x2".to_string())));
}

#[test]
fn confirmed_identity_stays_confirmed() {
    let mut cache = IdentityCache::new();
    cache.confirm("ACGT", "0x1");
    for _ in 0..3 {
        assert!(cache.lookup_or_reserve("ACGT").is_confirmed());
    }
    cache.lookup_or_reserve("TTTT");
    assert_eq!(cache.get("ACGT"), Some(NodeId::Confirmed("0x1".to_string())));
}

#[test]
fn confirm_twice_is_confirm_once() {
    let mut once = IdentityCache::new();
    let mut twice = IdentityCache::new();
    once.lookup_or_reserve("ACGT");
    twice.lookup_or_reserve("ACGT");
    once.confirm("ACGT", "0x7");
    twice.confirm("ACGT", "0x7");
    twice.confirm("ACGT", "0x7");
    assert_eq!(once.get("ACGT"), twice.get("ACGT"));
    assert_eq!(twice.get("ACGT"), Some(NodeId::Confirmed("0x7".to_string())));
}

#[test]
fn query_terms_are_space_separated() {
    let kmers = vec!["AAA".to_string(), "AAT".to_string(), "ATT".to_string()];
    assert_eq!(query_terms(&kmers), "AAA AAT ATT");
    assert_eq!(query_terms(&vec!["ACG".to_string()]), "ACG");
    assert_eq!(query_terms(&Vec::new()), "");
}

#[test]
fn reconcile_confirms_exact_matches_only() {
    let mut cache = IdentityCache::new();
    cache.lookup_or_reserve("AAA");
    let batch = vec!["AAA".to_string(), "CCC".to_string()];
    let found = vec![node("0x1", "AAA"), node("0x2", "AAAC"), node("0x3", "CCC")];
    reconcile(&mut cache, &batch, &found);
    assert_eq!(cache.get("AAA"), Some(NodeId::Confirmed("0x1".to_string())));
    assert_eq!(cache.get("CCC"), Some(NodeId::Confirmed("0x3".to_string())));
    assert_eq!(cache.get("AAAC"), None);
}

#[test]
fn second_genome_observes_confirmed_identity() {
    let mut cache = IdentityCache::new();
    let genome1 = vec!["GGAT".to_string(), "ATCG".to_string()];
    reconcile(&mut cache, &genome1, &vec![node("0x9", "ATCG")]);
    let genome2 = vec!["ATCG".to_string(), "TCGA".to_string()];
    reconcile(&mut cache, &genome2, &vec![node("0x9", "ATCG")]);
    let id = cache.lookup_or_reserve("ATCG");
    assert_eq!(id, NodeId::Confirmed("0x9".to_string()));
    assert!(id.is_confirmed());
}
