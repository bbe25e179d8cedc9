//! Per-read classification by the primers found in the read.
use itertools::Itertools;
use vstd::prelude::*;

use crate::primers::{occurs_in, Direction, Primer};
use crate::samples::{sample_view, string_views, PrimerPair, SampleData, SamplesTable};

verus! {

/// The outcome of classifying one read.
#[derive(Debug, Clone)]
pub enum Classification {
    /// Exactly one forward and one reverse primer were found.
    Matched { forward: String, reverse: String },
    /// Both ends have candidates, and at least one end more than one.
    Ambiguous,
    /// At least one end has no candidate.
    Unmatched,
}

/// What a `Classification` stands for, with labels as character sequences.
pub enum Outcome {
    Matched(Seq<char>, Seq<char>),
    Ambiguous,
    Unmatched,
}

impl View for Classification {
    type V = Outcome;

    open spec fn view(&self) -> Outcome {
        match self {
            Classification::Matched { forward, reverse } => Outcome::Matched(forward@, reverse@),
            Classification::Ambiguous => Outcome::Ambiguous,
            Classification::Unmatched => Outcome::Unmatched,
        }
    }
}

/// The primer's sequence, or its reverse complement, occurs in the read.
pub open spec fn hits(p: Primer, read: Seq<u8>) -> bool {
    occurs_in(p.spec_sequence(), read) || occurs_in(p.spec_sequence_rc(), read)
}

/// The primers of `table`, in table order, that hit the read and are declared
/// with direction `d`.
pub open spec fn candidates(table: Seq<Primer>, read: Seq<u8>, d: Direction) -> Seq<Primer>
    decreases table.len(),
{
    if table.len() == 0 {
        seq![]
    } else {
        let rest = candidates(table.drop_last(), read, d);
        let p = table.last();
        if hits(p, read) && p.spec_direction() == d {
            rest.push(p)
        } else {
            rest
        }
    }
}

/// The disambiguation policy: one forward and one reverse candidate give a
/// match on their plain labels; no candidate on an end leaves the read
/// unmatched; otherwise it is ambiguous.
pub open spec fn classify_spec(table: Seq<Primer>, read: Seq<u8>) -> Outcome {
    let f = candidates(table, read, Direction::Forward);
    let r = candidates(table, read, Direction::Reverse);
    if f.len() == 1 && r.len() == 1 {
        Outcome::Matched(f[0].spec_label(), r[0].spec_label())
    } else if f.len() == 0 || r.len() == 0 {
        Outcome::Unmatched
    } else {
        Outcome::Ambiguous
    }
}

/// The prefix that every tag starts with.
pub open spec fn tag_prefix() -> Seq<char> {
    seq!['p', 'r', 'i', 'm', 'e', 'r', 's', ':']
}

/// The tag of an outcome: `primers:<forward>-<reverse>` for a match,
/// `primers:invalid` otherwise.
pub open spec fn tag_of(o: Outcome) -> Seq<char> {
    match o {
        Outcome::Matched(f, r) => tag_prefix() + f + seq!['-'] + r,
        _ => tag_prefix() + seq!['i', 'n', 'v', 'a', 'l', 'i', 'd'],
    }
}

/// Whether an outcome counts as an error of the run.
pub open spec fn is_error(o: Outcome) -> bool {
    !(o is Matched)
}

/// The labels found in the read, in table order: a primer's label where its
/// sequence occurs, then its reverse-complement label where its reverse
/// complement occurs.
pub open spec fn found_labels_spec(table: Seq<Primer>, read: Seq<u8>) -> Seq<Seq<char>>
    decreases table.len(),
{
    if table.len() == 0 {
        seq![]
    } else {
        let rest = found_labels_spec(table.drop_last(), read);
        let p = table.last();
        let a = if occurs_in(p.spec_sequence(), read) {
            rest.push(p.spec_label())
        } else {
            rest
        };
        if occurs_in(p.spec_sequence_rc(), read) {
            a.push(p.spec_label_rc())
        } else {
            a
        }
    }
}

/// The items of `s` separated by `:`.
pub open spec fn joined(s: Seq<Seq<char>>) -> Seq<char>
    decreases s.len(),
{
    if s.len() == 0 {
        seq![]
    } else if s.len() == 1 {
        s[0]
    } else {
        joined(s.drop_last()) + seq![':'] + s.last()
    }
}

/// Relies on itertools' Itertools::join: the items' texts with the
/// separator between each two neighbours, nothing before or after.
#[verifier::external_body]
fn join_with_colons(labels: &Vec<String>) -> (r: String)
    ensures
        r@ == joined(string_views(labels@)),
{
    labels.iter().join(":")
}

impl Classification {
    /// The tag that marks a read with this outcome.
    pub fn tag(&self) -> (r: String)
        ensures
            r@ == tag_of(self@),
    {
        let mut t = "primers:".to_owned();
        proof {
            reveal_strlit("primers:");
            reveal_strlit("-");
            reveal_strlit("invalid");
            assert("primers:"@ =~= tag_prefix());
            assert("-"@ =~= seq!['-']);
            assert("invalid"@ =~= seq!['i', 'n', 'v', 'a', 'l', 'i', 'd']);
        }
        match self {
            Classification::Matched { forward, reverse } => {
                t.append(forward.as_str());
                t.append("-");
                t.append(reverse.as_str());
            },
            _ => {
                t.append("invalid");
            },
        }
        t
    }

    /// Whether this outcome counts as an error of the run.
    pub fn is_error(&self) -> (r: bool)
        ensures
            r == is_error(self@),
    {
        !matches!(self, Classification::Matched { .. })
    }
}

/// Scans `table` for the primers found in `read` and applies the
/// disambiguation policy.
pub fn classify(table: &Vec<Primer>, read: &[u8]) -> (r: Classification)
    ensures
        r@ == classify_spec(table@, read@),
{
    let mut n_fwd: usize = 0;
    let mut n_rev: usize = 0;
    let mut first_fwd: usize = 0;
    let mut first_rev: usize = 0;
    let mut i: usize = 0;
    while i < table.len()
        invariant
            i <= table@.len(),
            n_fwd == candidates(table@.take(i as int), read@, Direction::Forward).len(),
            n_rev == candidates(table@.take(i as int), read@, Direction::Reverse).len(),
            n_fwd <= i,
            n_rev <= i,
            n_fwd > 0 ==> first_fwd < table@.len() && candidates(
                table@.take(i as int),
                read@,
                Direction::Forward,
            )[0] == table@[first_fwd as int],
            n_rev > 0 ==> first_rev < table@.len() && candidates(
                table@.take(i as int),
                read@,
                Direction::Reverse,
            )[0] == table@[first_rev as int],
        decreases table.len() - i,
    {
        let p = &table[i];
        assert(table@.take(i + 1).drop_last() =~= table@.take(i as int));
        if p.is_found_in(read) || p.is_found_in_rc(read) {
            match p.direction() {
                Direction::Forward => {
                    if n_fwd == 0 {
                        first_fwd = i;
                    }
                    n_fwd = n_fwd + 1;
                },
                Direction::Reverse => {
                    if n_rev == 0 {
                        first_rev = i;
                    }
                    n_rev = n_rev + 1;
                },
            }
        }
        i = i + 1;
    }
    assert(table@.take(table@.len() as int) =~= table@);
    if n_fwd == 1 && n_rev == 1 {
        Classification::Matched {
            forward: table[first_fwd].label().to_owned(),
            reverse: table[first_rev].label().to_owned(),
        }
    } else if n_fwd == 0 || n_rev == 0 {
        Classification::Unmatched
    } else {
        Classification::Ambiguous
    }
}

/// The labels of every primer found in `read`, with the reverse-complement
/// label where the reverse complement was found, in table order.
pub fn found_labels(table: &Vec<Primer>, read: &[u8]) -> (r: Vec<String>)
    ensures
        string_views(r@) == found_labels_spec(table@, read@),
{
    let mut out: Vec<String> = Vec::new();
    let mut i: usize = 0;
    while i < table.len()
        invariant
            i <= table@.len(),
            string_views(out@) == found_labels_spec(table@.take(i as int), read@),
        decreases table.len() - i,
    {
        let p = &table[i];
        assert(table@.take(i + 1).drop_last() =~= table@.take(i as int));
        if p.is_found_in(read) {
            let ghost before = out@;
            out.push(p.label().to_owned());
            assert(string_views(out@) =~= string_views(before).push(p.spec_label()));
        }
        if p.is_found_in_rc(read) {
            let ghost before = out@;
            out.push(p.label_rc().to_owned());
            assert(string_views(out@) =~= string_views(before).push(p.spec_label_rc()));
        }
        i = i + 1;
    }
    assert(table@.take(table@.len() as int) =~= table@);
    out
}

/// The diagnostic report of a read: the labels found in it, joined by `:`.
pub fn diagnostic(table: &Vec<Primer>, read: &[u8]) -> (r: String)
    ensures
        r@ == joined(found_labels_spec(table@, read@)),
{
    let labels = found_labels(table, read);
    join_with_colons(&labels)
}

/// `x + 1`, held at the largest value of `u64`.
pub open spec fn bump(x: u64) -> u64 {
    if x < u64::MAX {
        (x + 1) as u64
    } else {
        x
    }
}

/// The tallies of a run: reads seen, and reads counted as errors (malformed,
/// ambiguous or unmatched).
#[derive(Debug, Clone, Copy, PartialEq, Eq)]
pub struct RunCounts {
    pub records_read: u64,
    pub records_error: u64,
}

impl RunCounts {
    /// Tallies at the start of a run.
    pub fn new() -> (r: RunCounts)
        ensures
            r.records_read == 0,
            r.records_error == 0,
    {
        RunCounts { records_read: 0, records_error: 0 }
    }

    /// Counts a read that failed its structural check: it is read, and an error.
    pub fn record_malformed(&mut self)
        ensures
            final(self).records_read == bump(old(self).records_read),
            final(self).records_error == bump(old(self).records_error),
    {
        self.records_read = if self.records_read < u64::MAX { self.records_read + 1 } else { self.records_read };
        self.records_error = if self.records_error < u64::MAX { self.records_error + 1 } else { self.records_error };
    }

    /// Counts a classified read: it is read, and an error unless it matched.
    pub fn record_outcome(&mut self, c: &Classification)
        ensures
            final(self).records_read == bump(old(self).records_read),
            final(self).records_error == if is_error(c@) {
                bump(old(self).records_error)
            } else {
                old(self).records_error
            },
    {
        self.records_read = if self.records_read < u64::MAX { self.records_read + 1 } else { self.records_read };
        if c.is_error() {
            self.records_error = if self.records_error < u64::MAX { self.records_error + 1 } else { self.records_error };
        }
    }
}

/// Classifies one well-formed read, counts it, and returns its tag.
pub fn classify_read(table: &Vec<Primer>, read: &[u8], counts: &mut RunCounts) -> (r: String)
    ensures
        r@ == tag_of(classify_spec(table@, read@)),
        final(counts).records_read == bump(old(counts).records_read),
        final(counts).records_error == if is_error(classify_spec(table@, read@)) {
            bump(old(counts).records_error)
        } else {
            old(counts).records_error
        },
{
    let c = classify(table, read);
    counts.record_outcome(&c);
    c.tag()
}

/// The sample that a matched read belongs to, if the registry has one for
/// its primer pair; an unmatched or ambiguous read has none.
pub fn resolve_sample<'a>(c: &Classification, samples: &'a SamplesTable) -> (r: Option<&'a SampleData>)
    requires
        samples.wf(),
    ensures
        match c@ {
            Outcome::Matched(f, rv) => match r {
                Some(d) => samples@.contains_key((f, rv)) && samples@[(f, rv)] == sample_view(*d),
                None => !samples@.contains_key((f, rv)),
            },
            _ => r is None,
        },
{
    match c {
        Classification::Matched { forward, reverse } => {
            let key = PrimerPair { forward: forward.clone(), reverse: reverse.clone() };
            samples.get(&key)
        },
        _ => None,
    }
}

/// Classifying the same read twice against the same table gives the same
/// outcome, the same tag and the same diagnostic labels.
pub proof fn lemma_classification_idempotent(
    table: Seq<Primer>,
    read: Seq<u8>,
    first: Classification,
    second: Classification,
    first_labels: Seq<String>,
    second_labels: Seq<String>,
)
    requires
        first@ == classify_spec(table, read),
        second@ == classify_spec(table, read),
        string_views(first_labels) == found_labels_spec(table, read),
        string_views(second_labels) == found_labels_spec(table, read),
    ensures
        first@ == second@,
        tag_of(first@) == tag_of(second@),
        string_views(first_labels) == string_views(second_labels),
{
}

} // verus!
