//! Primers: labelled DNA markers with a direction, searched for exactly in reads.
use bio::pattern_matching::bom::BOM;
use vstd::prelude::*;
use vstd::slice::slice_to_vec;
use vstd::utf8::encode_utf8;

use crate::dna::{is_dna_word, reverse_complement, revcomp, is_valid_dna};

verus! {

#[verifier::external_type_specification]
#[verifier::external_body]
pub struct ExBOM(BOM);

/// `pattern` occurs as a contiguous block of `text`.
pub open spec fn occurs_in(pattern: Seq<u8>, text: Seq<u8>) -> bool {
    exists|i: int|
        0 <= i && i + pattern.len() <= text.len() && #[trigger] text.subrange(i, i + pattern.len())
            == pattern
}

/// An exact-match searcher for one pattern, built once and queried many times.
///
/// The automaton is only ever built from `pattern`, by `Searcher::build`.
pub struct Searcher {
    pattern: Vec<u8>,
    automaton: BOM,
}

impl Searcher {
    pub closed spec fn spec_pattern(&self) -> Seq<u8> {
        self.pattern@
    }

    /// Relies on bio's BOM::new, which builds the backward oracle of a
    /// non-empty pattern (it panics on an empty one).
    #[verifier::external_body]
    fn build(pattern: &[u8]) -> (r: Searcher)
        requires
            pattern@.len() > 0,
        ensures
            r.spec_pattern() == pattern@,
    {
        Searcher { pattern: pattern.to_vec(), automaton: BOM::new(pattern) }
    }

    /// Relies on bio's BOM::find_all, whose iterator yields the start of every
    /// occurrence of the automaton's pattern in `text`: it yields a first item
    /// exactly when there is an occurrence.
    #[verifier::external_body]
    fn occurs(&self, text: &[u8]) -> (r: bool)
        ensures
            r == occurs_in(self.spec_pattern(), text@),
    {
        self.automaton.find_all(text).next().is_some()
    }
}

/// Encodes the reading direction of a primer.
#[derive(Debug, PartialEq, Eq, Copy, Clone, Structural)]
pub enum Direction {
    Forward,
    Reverse,
}

impl Direction {
    pub open spec fn spec_opposite(self) -> Direction {
        match self {
            Direction::Forward => Direction::Reverse,
            Direction::Reverse => Direction::Forward,
        }
    }

    /// The other direction.
    pub fn opposite(&self) -> (r: Direction)
        ensures
            r == self.spec_opposite(),
            r != *self,
    {
        match self {
            Direction::Forward => Direction::Reverse,
            Direction::Reverse => Direction::Forward,
        }
    }
}

/// Why a primer is not fit for use.
#[derive(Debug, PartialEq, Eq, Copy, Clone, Structural)]
pub enum InvalidPrimer {
    /// The label is empty.
    EmptyLabel,
    /// The sequence holds a symbol outside `ACGTacgt`.
    InvalidSequence,
    /// The sequence is empty.
    EmptySequence,
}

/// A single primer: its label, sequence, reverse complement, barcode and
/// direction, with a searcher for each orientation.
pub struct Primer {
    label: String,
    label_rc: String,
    sequence: Vec<u8>,
    sequence_rc: Vec<u8>,
    barcode: Vec<u8>,
    direction: Direction,
    searcher: Searcher,
    searcher_rc: Searcher,
}

impl Primer {
    #[verifier::type_invariant]
    spec fn inv(&self) -> bool {
        &&& self.sequence_rc@ == revcomp(self.sequence@)
        &&& self.searcher.spec_pattern() == self.sequence@
        &&& self.searcher_rc.spec_pattern() == self.sequence_rc@
        &&& self.label_rc@ == self.label@ + seq!['r', 'c']
    }

    pub closed spec fn spec_label(&self) -> Seq<char> {
        self.label@
    }

    pub closed spec fn spec_label_rc(&self) -> Seq<char> {
        self.label_rc@
    }

    pub closed spec fn spec_sequence(&self) -> Seq<u8> {
        self.sequence@
    }

    pub closed spec fn spec_sequence_rc(&self) -> Seq<u8> {
        self.sequence_rc@
    }

    pub closed spec fn spec_barcode(&self) -> Seq<u8> {
        self.barcode@
    }

    pub closed spec fn spec_direction(&self) -> Direction {
        self.direction
    }

    /// Creates a primer; its reverse complement, the searchers for both
    /// orientations and the label of the reverse complement (`label` followed
    /// by `rc`) are computed here. Validity is a separate question: see `check`.
    pub fn new(label: &str, sequence: &[u8], barcode: &[u8], direction: Direction) -> (r: Primer)
        requires
            sequence@.len() > 0,
        ensures
            r.spec_label() == label@,
            r.spec_label_rc() == label@ + seq!['r', 'c'],
            r.spec_sequence() == sequence@,
            r.spec_sequence_rc() == revcomp(sequence@),
            r.spec_barcode() == barcode@,
            r.spec_direction() == direction,
    {
        let sequence_rc = reverse_complement(sequence);
        let mut label_rc = label.to_owned();
        proof {
            reveal_strlit("rc");
            assert("rc"@ =~= seq!['r', 'c']);
        }
        label_rc.append("rc");
        let searcher = Searcher::build(sequence);
        let searcher_rc = Searcher::build(sequence_rc.as_slice());
        Primer {
            label: label.to_owned(),
            label_rc,
            sequence: slice_to_vec(sequence),
            sequence_rc,
            barcode: slice_to_vec(barcode),
            direction,
            searcher,
            searcher_rc,
        }
    }

    /// Checks that the label is not empty and that the sequence is made of
    /// the symbols `ACGTacgt` alone.
    pub fn check(&self) -> (r: Result<(), InvalidPrimer>)
        ensures
            self.spec_label().len() == 0 ==> r == Err::<(), InvalidPrimer>(InvalidPrimer::EmptyLabel),
            self.spec_label().len() > 0 && !is_dna_word(self.spec_sequence()) ==> r == Err::<
                (),
                InvalidPrimer,
            >(InvalidPrimer::InvalidSequence),
            self.spec_label().len() > 0 && is_dna_word(self.spec_sequence()) ==> r is Ok,
    {
        if self.label.as_str().is_empty() {
            return Err(InvalidPrimer::EmptyLabel);
        }
        if !is_valid_dna(self.sequence.as_slice()) {
            return Err(InvalidPrimer::InvalidSequence);
        }
        Ok(())
    }

    /// Whether the primer sequence occurs in `seq`.
    pub fn is_found_in(&self, seq: &[u8]) -> (r: bool)
        ensures
            r == occurs_in(self.spec_sequence(), seq@),
    {
        proof {
            use_type_invariant(self);
        }
        self.searcher.occurs(seq)
    }

    /// Whether the reverse complement of the primer sequence occurs in `seq`.
    pub fn is_found_in_rc(&self, seq: &[u8]) -> (r: bool)
        ensures
            r == occurs_in(self.spec_sequence_rc(), seq@),
            self.spec_sequence_rc() == revcomp(self.spec_sequence()),
    {
        proof {
            use_type_invariant(self);
        }
        self.searcher_rc.occurs(seq)
    }

    /// The primer label, as given to `new`.
    pub fn label(&self) -> (r: &str)
        ensures
            r@ == self.spec_label(),
    {
        self.label.as_str()
    }

    /// The label of the reverse complement: `label` followed by `rc`.
    pub fn label_rc(&self) -> (r: &str)
        ensures
            r@ == self.spec_label_rc(),
            r@ == self.spec_label() + seq!['r', 'c'],
    {
        proof {
            use_type_invariant(self);
        }
        self.label_rc.as_str()
    }

    /// The direction of the primer.
    pub fn direction(&self) -> (r: Direction)
        ensures
            r == self.spec_direction(),
    {
        self.direction
    }
}

/// One line of a primer table, as its fields read.
#[derive(Debug, Clone)]
pub struct PrimerRecord {
    pub label: String,
    pub sequence: String,
    pub barcode: String,
    pub direction: String,
}

/// The direction that a table token names: `F` is forward, any other token reverse.
pub open spec fn direction_of_token(t: Seq<char>) -> Direction {
    if t == seq!['F'] {
        Direction::Forward
    } else {
        Direction::Reverse
    }
}

/// The direction that `token` names: `F` is forward, any other token reverse.
pub fn direction_from_token(token: &str) -> (r: Direction)
    ensures
        r == direction_of_token(token@),
{
    proof {
        reveal_strlit("F");
        assert("F"@ =~= seq!['F']);
    }
    if token.unicode_len() == 1 && token.get_char(0) == 'F' {
        assert(token@ =~= seq!['F']);
        Direction::Forward
    } else {
        Direction::Reverse
    }
}

/// Why a record is not fit for use, if it is not: an empty label, an empty
/// sequence, or a symbol outside `ACGTacgt`, checked in that order.
pub open spec fn record_fault(rec: PrimerRecord) -> Option<InvalidPrimer> {
    if rec.label@.len() == 0 {
        Some(InvalidPrimer::EmptyLabel)
    } else if encode_utf8(rec.sequence@).len() == 0 {
        Some(InvalidPrimer::EmptySequence)
    } else if !is_dna_word(encode_utf8(rec.sequence@)) {
        Some(InvalidPrimer::InvalidSequence)
    } else {
        None
    }
}

/// The primer holds what the record says.
pub open spec fn describes(p: Primer, rec: PrimerRecord) -> bool {
    &&& p.spec_label() == rec.label@
    &&& p.spec_sequence() == encode_utf8(rec.sequence@)
    &&& p.spec_barcode() == encode_utf8(rec.barcode@)
    &&& p.spec_direction() == direction_of_token(rec.direction@)
}

/// The records fit for use, in order.
pub open spec fn kept_records(rs: Seq<PrimerRecord>) -> Seq<PrimerRecord>
    decreases rs.len(),
{
    if rs.len() == 0 {
        seq![]
    } else if record_fault(rs.last()) is None {
        kept_records(rs.drop_last()).push(rs.last())
    } else {
        kept_records(rs.drop_last())
    }
}

/// The index and the fault of each record not fit for use, in order.
pub open spec fn rejections(rs: Seq<PrimerRecord>) -> Seq<(int, InvalidPrimer)>
    decreases rs.len(),
{
    if rs.len() == 0 {
        seq![]
    } else {
        match record_fault(rs.last()) {
            Some(e) => rejections(rs.drop_last()).push((rs.len() - 1, e)),
            None => rejections(rs.drop_last()),
        }
    }
}

/// The primer that a record describes, if it is fit for use: its label is not
/// empty and its sequence is a non-empty word over `ACGTacgt`.
pub fn primer_from_record(rec: &PrimerRecord) -> (r: Result<Primer, InvalidPrimer>)
    ensures
        match record_fault(*rec) {
            Some(e) => r is Err && r->Err_0 == e,
            None => r is Ok && describes(r->Ok_0, *rec),
        },
{
    let seq = rec.sequence.as_str().as_bytes();
    if rec.label.as_str().is_empty() {
        return Err(InvalidPrimer::EmptyLabel);
    }
    if seq.len() == 0 {
        return Err(InvalidPrimer::EmptySequence);
    }
    let p = Primer::new(
        rec.label.as_str(),
        seq,
        rec.barcode.as_str().as_bytes(),
        direction_from_token(rec.direction.as_str()),
    );
    match p.check() {
        Ok(()) => Ok(p),
        Err(e) => Err(e),
    }
}

/// The primers of the records fit for use, in order; the index and the fault
/// of each other record.
pub fn primer_table_from_records(records: &Vec<PrimerRecord>) -> (r: (Vec<Primer>, Vec<(usize, InvalidPrimer)>))
    ensures
        r.0@.len() == kept_records(records@).len(),
        forall|k: int| 0 <= k < r.0@.len() ==> describes(#[trigger] r.0@[k], kept_records(records@)[k]),
        r.1@.map_values(|x: (usize, InvalidPrimer)| (x.0 as int, x.1)) == rejections(records@),
{
    let mut table: Vec<Primer> = Vec::new();
    let mut rejected: Vec<(usize, InvalidPrimer)> = Vec::new();
    let mut i: usize = 0;
    while i < records.len()
        invariant
            i <= records@.len(),
            table@.len() == kept_records(records@.take(i as int)).len(),
            forall|k: int| 0 <= k < table@.len() ==> describes(#[trigger] table@[k], kept_records(records@.take(i as int))[k]),
            rejected@.map_values(|x: (usize, InvalidPrimer)| (x.0 as int, x.1)) == rejections(records@.take(i as int)),
        decreases records.len() - i,
    {
        assert(records@.take(i + 1).drop_last() =~= records@.take(i as int));
        assert(records@.take(i + 1).last() == records@[i as int]);
        let ghost before = rejected@;
        match primer_from_record(&records[i]) {
            Ok(p) => {
                table.push(p);
            },
            Err(e) => {
                rejected.push((i, e));
                assert(rejected@.map_values(|x: (usize, InvalidPrimer)| (x.0 as int, x.1)) =~= before.map_values(
                    |x: (usize, InvalidPrimer)| (x.0 as int, x.1),
                ).push((i as int, e)));
            },
        }
        i = i + 1;
    }
    assert(records@.take(records@.len() as int) =~= records@);
    (table, rejected)
}

} // verus!
