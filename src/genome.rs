//! Genome labels, the store schema for k-mers and genomes, and the check of
//! the symbols a contig may hold.
use crate::kmer::ContigKmers;
use blake2::{Blake2b, Digest};
use vstd::prelude::*;
use vstd::string::*;

verus! {

broadcast use vstd::string::group_string_axioms;

/// The BLAKE2b-512 digest of `data`, as 128 lowercase hexadecimal digits.
pub uninterp spec fn blake2b_hex(data: Seq<u8>) -> Seq<char>;

pub open spec fn is_lower_hex_digit(c: char) -> bool {
    ('0' <= c <= '9') || ('a' <= c <= 'f')
}

/// Relies on blake2's `Blake2b` digest (64 bytes) and on generic-array's
/// `LowerHex`, which writes two digits of `0-9a-f` for each byte.
#[verifier::external_body]
fn blake2b_digest_hex(data: &[u8]) -> (r: String)
    ensures
        r@ == blake2b_hex(data@),
        r@.len() == 128,
        forall|i: int| 0 <= i < r@.len() ==> is_lower_hex_digit(#[trigger] r@[i]),
{
    format!("{:x}", Blake2b::digest(data))
}

/// The content digest of a genome file: BLAKE2b-512 of its bytes, in hex.
pub fn content_digest(contents: &[u8]) -> (r: String)
    ensures
        r@ == blake2b_hex(contents@),
        r@.len() == 128,
        forall|i: int| 0 <= i < r@.len() ==> is_lower_hex_digit(#[trigger] r@[i]),
{
    blake2b_digest_hex(contents)
}

/// The label of a genome whose content digest is `digest`: the digest after a
/// leading `g`, since a predicate name cannot start with a digit.
pub fn label_from_digest(digest: &str) -> (r: String)
    ensures
        r@ == "g"@ + digest@,
{
    let mut label = String::from_str("g");
    label.append(digest);
    label
}

/// The label of the genome whose file holds `contents`.
pub fn genome_label(contents: &[u8]) -> (r: String)
    ensures
        r@ == "g"@ + blake2b_hex(contents@),
{
    let digest = blake2b_digest_hex(contents);
    label_from_digest(digest.as_str())
}

/// The schema line that indexes k-mer contents for exact and term search.
pub fn kmer_schema() -> (r: String)
    ensures
        r@ == "kmer: string @index(exact, term) ."@,
{
    String::from_str("kmer: string @index(exact, term) .")
}

/// The schema line that declares the edge predicate of the genome `label`.
pub fn genome_schema(label: &str) -> (r: String)
    ensures
        r@ == label@ + ": uid ."@,
{
    let mut line = String::from_str(label);
    line.append(": uid .");
    line
}

/// A symbol that can stand in a k-mer: a visible ASCII character other than
/// the quote and the backslash, which would end or escape the quoted content
/// of a node statement.
pub open spec fn is_safe_symbol(c: char) -> bool {
    &&& '!' <= c <= '~'
    &&& c != '"'
    &&& c != '\\'
}

/// Why a contig is skipped.
#[derive(Debug, PartialEq, Eq, Structural)]
pub enum ContigError {
    /// The sequence holds a symbol that cannot stand in a node statement.
    UnsafeSymbol,
}

impl ContigKmers {
    /// Whether every symbol of the contig's sequence can stand in a k-mer.
    pub fn has_safe_symbols(&self) -> (r: bool)
        ensures
            r == forall|i: int|
                0 <= i < self.contig_seq@.len() ==> is_safe_symbol(#[trigger] self.contig_seq@[i]),
    {
        let s = self.contig_seq.as_str();
        if !s.is_ascii() {
            return false;
        }
        let n = s.unicode_len();
        let mut i: usize = 0;
        while i < n
            invariant
                s@ == self.contig_seq@,
                n == s@.len(),
                s.is_ascii(),
                i <= n,
                forall|j: int| 0 <= j < i ==> is_safe_symbol(#[trigger] s@[j]),
            decreases n - i,
        {
            let b = s.get_ascii(i);
            let ghost c = s@[i as int];
            assert('\0' <= c <= '\u{7f}');
            if b < 0x21 || b > 0x7e || b == 0x22 || b == 0x5c {
                return false;
            }
            i += 1;
        }
        true
    }

    /// A contig to window into k-mers, where every symbol of `contig_seq` can
    /// stand in a k-mer.
    pub fn new(name: String, contig_seq: String, kmer_length: usize) -> (r: Result<
        ContigKmers,
        ContigError,
    >)
        ensures
            match r {
                Ok(c) => c.name@ == name@ && c.contig_seq@ == contig_seq@ && c.kmer_length
                    == kmer_length,
                Err(ContigError::UnsafeSymbol) => exists|i: int|
                    0 <= i < contig_seq@.len() && !is_safe_symbol(#[trigger] contig_seq@[i]),
            },
            r is Ok <==> forall|i: int|
                0 <= i < contig_seq@.len() ==> is_safe_symbol(#[trigger] contig_seq@[i]),
    {
        let ghost seq = contig_seq@;
        let c = ContigKmers { name, contig_seq, kmer_length };
        assert(c.contig_seq@ == seq);
        if c.has_safe_symbols() {
            Ok(c)
        } else {
            Err(ContigError::UnsafeSymbol)
        }
    }
}

} // verus!
