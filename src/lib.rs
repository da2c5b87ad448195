//! Turning genome sequences into a k-mer overlap graph: windowing contigs into
//! k-mers, keeping one node identity per k-mer content, reconciling those
//! identities against a graph store, and rendering node and edge statements
//! that are submitted in bounded, all-or-nothing batches.
pub mod config;
pub mod kmer;
pub mod genome;
pub mod identity;
pub mod reconcile;
pub mod mutation;
pub mod work;
pub mod submit;
