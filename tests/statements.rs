use cyno::identity::{IdentityCache, NodeId};
use cyno::mutation::{create_kmer_links, Statement};
use cyno::kmer::ContigKmers;
use std::collections::HashSet;

fn scenario_kmers() -> Vec<String> {
    ContigKmers {
        name: "c".to_string(),
        contig_seq: "AAATTTCCTTTT".to_string(),
        kmer_length: 3,
    }
    .get_kmers_contig()
}

#[test]
fn scenario_builds_nine_edges() {
    let kmers = scenario_kmers();
    let mut cache = IdentityCache::new();
    let stmts = create_kmer_links(&kmers, &mut cache, "g1");
    let edges = stmts.iter().filter(|s| matches!(s, Statement::Edge { .. })).count();
    let nodes = stmts.iter().filter(|s| matches!(s, Statement::Node { .. })).count();
    assert_eq!(edges, 9);
    assert!(nodes <= 18);
    let mut ids = HashSet::new();
    for s in &stmts {
        if let Statement::Node { id, .. } = s {
            ids.insert(id.term());
        }
    }
    assert_eq!(ids.len(), 8);
    assert_eq!(cache.get("TTT"), Some(NodeId::Placeholder("TTT".to_string())));
}

#[test]
fn scenario_statements_in_order() {
    let kmers = scenario_kmers();
    let mut cache = IdentityCache::new();
    let stmts = create_kmer_links(&kmers, &mut cache, "g1");
    assert_eq!(stmts.len(), 27);
    assert_eq!(stmts[0].to_nquad(), "_:kAAA <kmer> \"AAA\" .");
    assert_eq!(stmts[1].to_nquad(), "_:kAAT <kmer> \"AAT\" .");
    assert_eq!(stmts[2].to_nquad(), "_:kAAA <g1> _:kAAT .");
    assert_eq!(stmts[26].to_nquad(), "_:kTTT <g1> _:kTTT .");
}

#[test]
fn every_edge_follows_its_node_declarations() {
    let kmers = scenario_kmers();
    let mut cache = IdentityCache::new();
    cache.confirm("TTC", "0x5");
    let stmts = create_kmer_links(&kmers, &mut cache, "g1");
    for (j, s) in stmts.iter().enumerate() {
        if let Statement::Edge { from, to, genome } = s {
            assert_eq!(genome, "g1");
            let declared: Vec<&NodeId> = stmts[..j]
                .iter()
                .filter_map(|d| match d {
                    Statement::Node { id, .. } => Some(id),
                    _ => None,
                })
                .collect();
            assert!(declared.contains(&from));
            assert!(declared.contains(&to));
        }
    }
}

#[test]
fn confirmed_identity_is_used_in_statements() {
    let kmers = vec!["ACG".to_string(), "CGT".to_string()];
    let mut cache = IdentityCache::new();
    cache.confirm("CGT", "0x3");
    let stmts = create_kmer_links(&kmers, &mut cache, "gabc");
    let lines: Vec<String> = stmts.iter().map(|s| s.to_nquad()).collect();
    assert_eq!(
        lines,
        vec![
            "_:kACG <kmer> \"ACG\" .",
            "<0x3> <kmer> \"CGT\" .",
            "_:kACG <gabc> <0x3> .",
        ]
    );
}

#[test]
fn short_kmer_sequences_build_nothing() {
    let mut cache = IdentityCache::new();
    assert!(create_kmer_links(&Vec::new(), &mut cache, "g1").is_empty());
    assert!(create_kmer_links(&vec!["ACG".to_string()], &mut cache, "g1").is_empty());
    assert_eq!(cache.get("ACG"), None);
}

#[test]
fn node_terms() {
    assert_eq!(NodeId::Confirmed("0x1f".to_string()).term(), "<0x1f>");
    assert_eq!(NodeId::Placeholder("ACG".to_string()).term(), "_:kACG");
}
