use cyno::identity::IdentityCache;
use cyno::mutation::{create_kmer_links, Statement};
use cyno::work::work_ranges;

#[test]
fn work_ranges_overlap_by_one() {
    assert_eq!(work_ranges(10, 4), vec![(0, 4), (3, 7), (6, 10)]);
    assert_eq!(work_ranges(11, 4), vec![(0, 4), (3, 7), (6, 10), (9, 11)]);
    assert_eq!(work_ranges(4, 4), vec![(0, 4)]);
    assert_eq!(work_ranges(5, 2), vec![(0, 2), (1, 3), (2, 4), (3, 5)]);
}

#[test]
fn work_ranges_of_short_sequences_are_empty() {
    assert!(work_ranges(0, 3).is_empty());
    assert!(work_ranges(1, 3).is_empty());
    assert_eq!(work_ranges(2, 3), vec![(0, 2)]);
}

#[test]
fn chunked_building_matches_whole_building() {
    let kmers: Vec<String> = ["AAA", "AAT", "ATT", "TTT", "TTC", "TCC", "CCT", "CTT", "TTT", "TTT"]
        .iter()
        .map(|s| s.to_string())
        .collect();
    let mut whole_cache = IdentityCache::new();
    let whole = create_kmer_links(&kmers, &mut whole_cache, "g1");
    let mut cache = IdentityCache::new();
    let mut chunked: Vec<Statement> = Vec::new();
    for (s, e) in work_ranges(kmers.len(), 4) {
        chunked.extend(create_kmer_links(&kmers[s..e].to_vec(), &mut cache, "g1"));
    }
    assert_eq!(chunked, whole);
}
