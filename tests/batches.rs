use cyno::config::{ConfigError, Opt, RunSettings};
use cyno::genome::{content_digest, genome_label, genome_schema, kmer_schema, label_from_digest};
use cyno::identity::IdentityCache;
use cyno::mutation::create_kmer_links;
use cyno::submit::{batch_payload, batch_ranges, BatchSubmission, SubmitStep};
use std::path::PathBuf;

const ABC_BLAKE2B: &str = "ba80a53f981c4d0d6a2797b69f12f6e94c212f14685ac4b74b12bb6fdbffa2d17d87c5392aab792dc252d5de4533cc9518d38aa8dbf1925ab92386edd4009923";

#[test]
fn batch_ranges_keep_whole_triples() {
    assert_eq!(batch_ranges(27, 10), vec![(0, 9), (9, 18), (18, 27)]);
    assert_eq!(batch_ranges(12, 999), vec![(0, 12)]);
    assert_eq!(batch_ranges(15, 3), vec![(0, 3), (3, 6), (6, 9), (9, 12), (12, 15)]);
    assert!(batch_ranges(0, 9).is_empty());
}

#[test]
fn batch_payload_is_nquad_lines() {
    let kmers = vec!["ACG".to_string(), "CGT".to_string(), "GTA".to_string()];
    let mut cache = IdentityCache::new();
    let stmts = create_kmer_links(&kmers, &mut cache, "g1");
    assert_eq!(
        batch_payload(&stmts, 3, 6),
        "_:kCGT <kmer> \"CGT\" .\n_:kGTA <kmer> \"GTA\" .\n_:kCGT <g1> _:kGTA .\n"
    );
    assert_eq!(batch_payload(&stmts, 2, 2), "");
}

/// Drives a submission against a store whose commit fails on one batch;
/// returns the batches the store holds, the batches attempted, and the end.
fn run_against_store(n: usize, failing: Option<usize>) -> (Vec<usize>, Vec<usize>, SubmitStep) {
    let mut stored = Vec::new();
    let mut attempted = Vec::new();
    let mut run = BatchSubmission::new(n);
    loop {
        match run.next_step() {
            SubmitStep::Submit(i) => {
                attempted.push(i);
                let ok = Some(i) != failing;
                if ok {
                    stored.push(i);
                }
                run.record_commit(ok);
            }
            end => return (stored, attempted, end),
        }
    }
}

#[test]
fn failed_commit_stops_the_run() {
    let (stored, attempted, end) = run_against_store(5, Some(2));
    assert_eq!(stored, vec![0, 1]);
    assert_eq!(attempted, vec![0, 1, 2]);
    assert_eq!(end, SubmitStep::Failed(2));
}

#[test]
fn all_commits_succeed() {
    let (stored, attempted, end) = run_against_store(5, None);
    assert_eq!(stored, vec![0, 1, 2, 3, 4]);
    assert_eq!(attempted, vec![0, 1, 2, 3, 4]);
    assert_eq!(end, SubmitStep::Done);
}

#[test]
fn empty_submission_is_done() {
    let run = BatchSubmission::new(0);
    assert!(run.is_finished());
    assert_eq!(run.next_step(), SubmitStep::Done);
    assert_eq!(run.committed(), 0);
}

#[test]
fn digest_and_label() {
    assert_eq!(content_digest(b"abc"), ABC_BLAKE2B);
    assert_eq!(genome_label(b"abc"), format!("g{}", ABC_BLAKE2B));
    assert_eq!(label_from_digest("00ff"), "g00ff");
    assert_eq!(content_digest(b"").len(), 128);
}

#[test]
fn schema_lines() {
    assert_eq!(kmer_schema(), "kmer: string @index(exact, term) .");
    assert_eq!(genome_schema("gab12"), "gab12: uid .");
}

fn opt(kmer: usize, chunk: usize) -> Opt {
    Opt {
        input: PathBuf::from("genomes"),
        chunk,
        url: "localhost:9080".to_string(),
        kmer,
    }
}

#[test]
fn settings_validation() {
    assert_eq!(
        opt(11, 999).settings(),
        Ok(RunSettings { kmer_length: 11, max_statements: 999 })
    );
    assert_eq!(opt(0, 999).settings(), Err(ConfigError::ZeroKmerLength));
    assert_eq!(opt(0, 1).settings(), Err(ConfigError::ZeroKmerLength));
    assert_eq!(opt(11, 2).settings(), Err(ConfigError::BatchBoundTooSmall));
    assert_eq!(opt(11, 3).settings(), Ok(RunSettings { kmer_length: 11, max_statements: 3 }));
}

#[test]
fn kmers_per_chunk_fills_one_batch() {
    let s = RunSettings { kmer_length: 11, max_statements: 999 };
    assert_eq!(s.kmers_per_chunk(), 334);
    let s = RunSettings { kmer_length: 11, max_statements: 10 };
    assert_eq!(s.kmers_per_chunk(), 4);
    let s = RunSettings { kmer_length: 11, max_statements: 3 };
    assert_eq!(s.kmers_per_chunk(), 2);
}
