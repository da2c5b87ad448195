use cyno::genome::ContigError;
use cyno::kmer::ContigKmers;

fn contig(seq: &str, k: usize) -> ContigKmers {
    ContigKmers {
        name: "contig1".to_string(),
        contig_seq: seq.to_string(),
        kmer_length: k,
    }
}

#[test]
fn windows_of_scenario_sequence() {
    let kmers = contig("AAATTTCCTTTT", 3).get_kmers_contig();
    assert_eq!(
        kmers,
        vec!["AAA", "AAT", "ATT", "TTT", "TTC", "TCC", "CCT", "CTT", "TTT", "TTT"]
    );
}

#[test]
fn windows_count_length_and_overlap() {
    let seq = "ACGTTGCAAC";
    for k in 1..=seq.len() {
        let kmers = contig(seq, k).get_kmers_contig();
        assert_eq!(kmers.len(), seq.len() - k + 1);
        assert!(kmers.iter().all(|w| w.len() == k));
        let mut joined = kmers[0].clone();
        for w in &kmers[1..] {
            joined.push(w.chars().last().unwrap());
        }
        assert_eq!(joined, seq);
    }
}

#[test]
fn windows_of_short_sequence_are_empty() {
    assert!(contig("ACG", 4).get_kmers_contig().is_empty());
    assert!(contig("", 1).get_kmers_contig().is_empty());
}

#[test]
fn windows_with_length_equal_to_sequence() {
    assert_eq!(contig("ACGT", 4).get_kmers_contig(), vec!["ACGT"]);
}

#[test]
fn windows_of_non_ascii_sequence_follow_characters() {
    assert_eq!(contig("aéb", 2).get_kmers_contig(), vec!["aé", "éb"]);
}

#[test]
fn contig_with_safe_symbols_is_accepted() {
    let c = ContigKmers::new("c".to_string(), "ACGTNacgtn".to_string(), 3).unwrap();
    assert_eq!(c.name, "c");
    assert_eq!(c.contig_seq, "ACGTNacgtn");
    assert_eq!(c.kmer_length, 3);
}

#[test]
fn contig_with_unsafe_symbols_is_refused() {
    for seq in ["AC\"GT", "AC\\GT", "AC GT", "AC\nGT", "ACéGT"] {
        assert_eq!(
            ContigKmers::new("c".to_string(), seq.to_string(), 3).err(),
            Some(ContigError::UnsafeSymbol)
        );
    }
}
