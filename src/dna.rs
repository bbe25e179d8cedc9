//! The DNA alphabet and the reverse complement of a sequence.
use bio::alphabets::dna as bio_dna;
use vstd::prelude::*;

verus! {

/// A symbol of the plain DNA alphabet, in either case.
pub open spec fn is_dna_base(b: u8) -> bool {
    b == 65u8 || b == 67u8 || b == 71u8 || b == 84u8      // A C G T
    || b == 97u8 || b == 99u8 || b == 103u8 || b == 116u8  // a c g t
}

/// Every symbol of `s` belongs to the plain DNA alphabet.
pub open spec fn is_dna_word(s: Seq<u8>) -> bool {
    forall|i: int| 0 <= i < s.len() ==> is_dna_base(#[trigger] s[i])
}

/// The complement of an upper-case IUPAC symbol; any other byte is its own image.
pub open spec fn upper_complement(b: u8) -> u8 {
    if b == 65u8 { 84u8 }                  // A -> T
    else if b == 84u8 { 65u8 }             // T -> A
    else if b == 67u8 { 71u8 }             // C -> G
    else if b == 71u8 { 67u8 }             // G -> C
    else if b == 89u8 { 82u8 }             // Y -> R
    else if b == 82u8 { 89u8 }             // R -> Y
    else if b == 75u8 { 77u8 }             // K -> M
    else if b == 77u8 { 75u8 }             // M -> K
    else if b == 68u8 { 72u8 }             // D -> H
    else if b == 72u8 { 68u8 }             // H -> D
    else if b == 86u8 { 66u8 }             // V -> B
    else if b == 66u8 { 86u8 }             // B -> V
    else { b }                             // W, S, N and all others stay
}

/// The complement of one symbol: Watson-Crick pairs and their IUPAC
/// extensions, with the case of a letter kept.
pub open spec fn complement(b: u8) -> u8 {
    if 97u8 <= b <= 122u8 {
        (upper_complement((b - 32) as u8) + 32) as u8
    } else if 65u8 <= b <= 90u8 {
        upper_complement(b)
    } else {
        b
    }
}

/// The reverse complement: each symbol complemented, the order reversed.
pub open spec fn revcomp(s: Seq<u8>) -> Seq<u8> {
    Seq::new(s.len(), |i: int| complement(s[s.len() - 1 - i]))
}

/// Relies on bio::alphabets::dna::revcomp, which maps each symbol through the
/// IUPAC complement table (case kept) and reverses the order.
#[verifier::external_body]
fn bio_revcomp(seq: &[u8]) -> (r: Vec<u8>)
    ensures
        r@ == revcomp(seq@),
{
    bio_dna::revcomp(seq)
}

/// Relies on bio::alphabets::dna::alphabet, the symbols `ACGTacgt`, and on
/// Alphabet::is_word, which holds when every symbol of the text is in it.
#[verifier::external_body]
fn bio_is_dna_word(seq: &[u8]) -> (r: bool)
    ensures
        r == is_dna_word(seq@),
{
    bio_dna::alphabet().is_word(seq)
}

/// Whether every symbol of `seq` is one of `ACGTacgt`.
pub fn is_valid_dna(seq: &[u8]) -> (r: bool)
    ensures
        r == is_dna_word(seq@),
{
    bio_is_dna_word(seq)
}

/// The reverse complement of `seq`.
pub fn reverse_complement(seq: &[u8]) -> (r: Vec<u8>)
    ensures
        r@ == revcomp(seq@),
{
    bio_revcomp(seq)
}

/// Complementing a symbol twice gives it back.
pub proof fn lemma_complement_involutive(b: u8)
    ensures
        complement(complement(b)) == b,
{
}

/// The reverse complement of a plain DNA word is again a plain DNA word.
pub proof fn lemma_revcomp_keeps_dna(s: Seq<u8>)
    requires
        is_dna_word(s),
    ensures
        is_dna_word(revcomp(s)),
{
    assert forall|i: int| 0 <= i < revcomp(s).len() implies is_dna_base(#[trigger] revcomp(s)[i]) by {
        assert(is_dna_base(s[s.len() - 1 - i]));
    }
}

/// Taking the reverse complement twice gives the sequence back.
pub proof fn lemma_revcomp_involutive(s: Seq<u8>)
    ensures
        revcomp(revcomp(s)) == s,
{
    let r = revcomp(revcomp(s));
    assert forall|i: int| 0 <= i < s.len() implies #[trigger] r[i] == s[i] by {
        lemma_complement_involutive(s[i]);
    }
    assert(r =~= s);
}

} // verus!
