//! The run's configuration and its validation, done before any store work.
use std::path::PathBuf;
use vstd::prelude::*;

verus! {

/// std's `PathBuf`: the input path is carried through and never read here.
#[verifier::external_type_specification]
#[verifier::external_body]
pub struct ExPathBuf(PathBuf);

/// The options of a run: the input file or directory, the bound on statements
/// per batch, the store's address, and the k-mer length.
pub struct Opt {
    pub input: PathBuf,
    pub chunk: usize,
    pub url: String,
    pub kmer: usize,
}

/// A configuration that a run cannot start with.
#[derive(Debug, PartialEq, Eq, Structural)]
pub enum ConfigError {
    /// The k-mer length is zero.
    ZeroKmerLength,
    /// The batch bound cannot hold the three statements of one k-mer pair.
    BatchBoundTooSmall,
}

/// The validated numbers a run works with.
#[derive(Debug, PartialEq, Eq, Structural)]
pub struct RunSettings {
    pub kmer_length: usize,
    pub max_statements: usize,
}

impl RunSettings {
    /// The most k-mers a work chunk may hold so that the statements built for
    /// it fit in one batch: one more than the number of whole triples.
    pub fn kmers_per_chunk(&self) -> (r: usize)
        requires
            self.max_statements >= 3,
        ensures
            r == self.max_statements / 3 + 1,
            r >= 2,
            3 * (r - 1) <= self.max_statements,
    {
        self.max_statements / 3 + 1
    }
}

impl Opt {
    /// The run's settings, or the first configuration error: a k-mer length of
    /// zero, then a batch bound under three statements.
    pub fn settings(&self) -> (r: Result<RunSettings, ConfigError>)
        ensures
            self.kmer == 0 ==> r == Err::<RunSettings, ConfigError>(ConfigError::ZeroKmerLength),
            self.kmer > 0 && self.chunk < 3 ==> r == Err::<RunSettings, ConfigError>(
                ConfigError::BatchBoundTooSmall,
            ),
            self.kmer > 0 && self.chunk >= 3 ==> r == Ok::<RunSettings, ConfigError>(
                RunSettings { kmer_length: self.kmer, max_statements: self.chunk },
            ),
    {
        if self.kmer == 0 {
            Err(ConfigError::ZeroKmerLength)
        } else if self.chunk < 3 {
            Err(ConfigError::BatchBoundTooSmall)
        } else {
            Ok(RunSettings { kmer_length: self.kmer, max_statements: self.chunk })
        }
    }
}

} // verus!
