//! The sample registry: which sample a (forward, reverse) primer pair stands for.
use vstd::prelude::*;

verus! {

/// A sample: its name, and whether it is a control.
#[derive(Debug, Clone)]
pub struct SampleData {
    pub name: String,
    pub is_control: bool,
}

/// The labels of a forward and a reverse primer.
#[derive(Debug, Clone)]
pub struct PrimerPair {
    pub forward: String,
    pub reverse: String,
}

impl PartialEq for PrimerPair {
    fn eq(&self, o: &PrimerPair) -> (r: bool) {
        self.forward == o.forward && self.reverse == o.reverse
    }
}

impl Eq for PrimerPair {
}

impl vstd::std_specs::cmp::PartialEqSpecImpl for PrimerPair {
    open spec fn obeys_eq_spec() -> bool {
        true
    }

    open spec fn eq_spec(&self, o: &PrimerPair) -> bool {
        self.forward@ == o.forward@ && self.reverse@ == o.reverse@
    }
}

/// The key of a registry entry: the two labels.
pub type PairKey = (Seq<char>, Seq<char>);

/// What a registry entry holds: the sample name and the control flag.
pub type SampleView = (Seq<char>, bool);

pub open spec fn pair_key(p: PrimerPair) -> PairKey {
    (p.forward@, p.reverse@)
}

pub open spec fn sample_view(s: SampleData) -> SampleView {
    (s.name@, s.is_control)
}

/// The map that a list of entries stands for.
pub open spec fn entries_map(s: Seq<(PrimerPair, SampleData)>) -> Map<PairKey, SampleView>
    decreases s.len(),
{
    if s.len() == 0 {
        Map::empty()
    } else {
        entries_map(s.drop_last()).insert(pair_key(s.last().0), sample_view(s.last().1))
    }
}

/// No two entries share a key.
pub open spec fn unique_keys(s: Seq<(PrimerPair, SampleData)>) -> bool {
    forall|i: int, j: int|
        0 <= i < s.len() && 0 <= j < s.len() && i != j ==> pair_key(#[trigger] s[i].0) != pair_key(
            #[trigger] s[j].0,
        )
}

/// The character sequences of a vector of strings.
pub open spec fn string_views(v: Seq<String>) -> Seq<Seq<char>> {
    v.map_values(|s: String| s@)
}

proof fn lemma_entries_dom(s: Seq<(PrimerPair, SampleData)>, k: PairKey)
    ensures
        entries_map(s).contains_key(k) <==> exists|i: int| 0 <= i < s.len() && pair_key(#[trigger] s[i].0) == k,
    decreases s.len(),
{
    if s.len() > 0 {
        lemma_entries_dom(s.drop_last(), k);
        if exists|i: int| 0 <= i < s.len() && pair_key(#[trigger] s[i].0) == k {
            let i = choose|i: int| 0 <= i < s.len() && pair_key(#[trigger] s[i].0) == k;
            if i < s.len() - 1 {
                assert(s.drop_last()[i] == s[i]);
            }
        }
        if exists|i: int| 0 <= i < s.drop_last().len() && pair_key(#[trigger] s.drop_last()[i].0) == k {
            let i = choose|i: int| 0 <= i < s.drop_last().len() && pair_key(#[trigger] s.drop_last()[i].0) == k;
            assert(s[i] == s.drop_last()[i]);
        }
    }
}

proof fn lemma_entries_lookup(s: Seq<(PrimerPair, SampleData)>, i: int)
    requires
        unique_keys(s),
        0 <= i < s.len(),
    ensures
        entries_map(s).contains_key(pair_key(s[i].0)),
        entries_map(s)[pair_key(s[i].0)] == sample_view(s[i].1),
    decreases s.len(),
{
    if i < s.len() - 1 {
        assert(s.drop_last()[i] == s[i]);
        assert(unique_keys(s.drop_last())) by {
            assert forall|a: int, b: int|
                0 <= a < s.drop_last().len() && 0 <= b < s.drop_last().len() && a != b implies pair_key(
                #[trigger] s.drop_last()[a].0,
            ) != pair_key(#[trigger] s.drop_last()[b].0) by {
                assert(s.drop_last()[a] == s[a]);
                assert(s.drop_last()[b] == s[b]);
            }
        }
        lemma_entries_lookup(s.drop_last(), i);
        assert(pair_key(s[i].0) != pair_key(s[s.len() - 1].0));
    }
}

proof fn lemma_entries_update(s: Seq<(PrimerPair, SampleData)>, i: int, e: (PrimerPair, SampleData))
    requires
        unique_keys(s),
        0 <= i < s.len(),
        pair_key(s[i].0) == pair_key(e.0),
    ensures
        entries_map(s.update(i, e)) == entries_map(s).insert(pair_key(e.0), sample_view(e.1)),
        unique_keys(s.update(i, e)),
    decreases s.len(),
{
    let u = s.update(i, e);
    assert(unique_keys(u)) by {
        assert forall|a: int, b: int| 0 <= a < u.len() && 0 <= b < u.len() && a != b implies pair_key(
            #[trigger] u[a].0,
        ) != pair_key(#[trigger] u[b].0) by {
            assert(pair_key(u[a].0) == pair_key(s[a].0));
            assert(pair_key(u[b].0) == pair_key(s[b].0));
        }
    }
    if i == s.len() - 1 {
        assert(u.drop_last() =~= s.drop_last());
        assert(entries_map(u) =~= entries_map(s).insert(pair_key(e.0), sample_view(e.1)));
    } else {
        let d = s.drop_last();
        assert(unique_keys(d)) by {
            assert forall|a: int, b: int| 0 <= a < d.len() && 0 <= b < d.len() && a != b implies pair_key(
                #[trigger] d[a].0,
            ) != pair_key(#[trigger] d[b].0) by {
                assert(d[a] == s[a]);
                assert(d[b] == s[b]);
            }
        }
        assert(d[i] == s[i]);
        lemma_entries_update(d, i, e);
        assert(u.drop_last() =~= d.update(i, e));
        assert(u.last() == s.last());
        assert(pair_key(s[i].0) != pair_key(s[s.len() - 1].0));
        assert(entries_map(u) =~= entries_map(s).insert(pair_key(e.0), sample_view(e.1)));
    }
}

/// The registry: at most one sample for each primer pair, and the forward and
/// reverse labels that it has seen.
pub struct SamplesTable {
    sample_table: Vec<(PrimerPair, SampleData)>,
    forward_primers: Vec<String>,
    reverse_primers: Vec<String>,
}

impl View for SamplesTable {
    type V = Map<PairKey, SampleView>;

    closed spec fn view(&self) -> Map<PairKey, SampleView> {
        entries_map(self.sample_table@)
    }
}

impl SamplesTable {
    /// The entries have unique keys.
    pub closed spec fn wf(&self) -> bool {
        unique_keys(self.sample_table@)
    }

    /// The forward labels that have been inserted.
    pub closed spec fn forward_labels(&self) -> Set<Seq<char>> {
        string_views(self.forward_primers@).to_set()
    }

    /// The reverse labels that have been inserted.
    pub closed spec fn reverse_labels(&self) -> Set<Seq<char>> {
        string_views(self.reverse_primers@).to_set()
    }

    /// An empty registry.
    pub fn new() -> (r: SamplesTable)
        ensures
            r.wf(),
            r@ == Map::<PairKey, SampleView>::empty(),
            r.forward_labels() == Set::<Seq<char>>::empty(),
            r.reverse_labels() == Set::<Seq<char>>::empty(),
    {
        let r = SamplesTable {
            sample_table: Vec::new(),
            forward_primers: Vec::new(),
            reverse_primers: Vec::new(),
        };
        assert(string_views(r.forward_primers@).to_set() =~= Set::<Seq<char>>::empty());
        assert(string_views(r.reverse_primers@).to_set() =~= Set::<Seq<char>>::empty());
        r
    }

    /// The index of the entry for `key`, if there is one.
    fn position(&self, key: &PrimerPair) -> (r: Option<usize>)
        ensures
            match r {
                Some(i) => i < self.sample_table@.len() && pair_key(self.sample_table@[i as int].0)
                    == pair_key(*key),
                None => forall|i: int|
                    0 <= i < self.sample_table@.len() ==> pair_key(#[trigger] self.sample_table@[i].0)
                        != pair_key(*key),
            },
    {
        let mut i: usize = 0;
        while i < self.sample_table.len()
            invariant
                i <= self.sample_table@.len(),
                forall|j: int| 0 <= j < i ==> pair_key(#[trigger] self.sample_table@[j].0) != pair_key(*key),
            decreases self.sample_table.len() - i,
        {
            if self.sample_table[i].0 == *key {
                return Some(i);
            }
            i = i + 1;
        }
        None
    }

    /// Adds `label` to `labels` unless it is there already.
    fn note_label(labels: &mut Vec<String>, label: &String)
        ensures
            string_views(final(labels)@).to_set() == string_views(old(labels)@).to_set().insert(label@),
    {
        let mut i: usize = 0;
        while i < labels.len()
            invariant
                i <= labels@.len(),
                forall|j: int| 0 <= j < i ==> (#[trigger] labels@[j])@ != label@,
            decreases labels.len() - i,
        {
            if labels[i] == *label {
                assert(string_views(labels@)[i as int] == label@);
                assert(string_views(labels@).to_set() =~= string_views(labels@).to_set().insert(label@));
                return;
            }
            i = i + 1;
        }
        let ghost before = labels@;
        labels.push(label.clone());
        assert(string_views(labels@) =~= string_views(before).push(label@));
        proof {
            string_views(before).lemma_push_to_set_commute(label@);
        }
    }

    /// Records `sample` for the pair `primers`, replacing any sample that the
    /// pair had; both labels join the sets of labels seen.
    pub fn insert(&mut self, primers: PrimerPair, sample: SampleData)
        requires
            old(self).wf(),
        ensures
            final(self).wf(),
            final(self)@ == old(self)@.insert(pair_key(primers), sample_view(sample)),
            final(self).forward_labels() == old(self).forward_labels().insert(primers.forward@),
            final(self).reverse_labels() == old(self).reverse_labels().insert(primers.reverse@),
    {
        Self::note_label(&mut self.forward_primers, &primers.forward);
        Self::note_label(&mut self.reverse_primers, &primers.reverse);
        let ghost key = pair_key(primers);
        let ghost val = sample_view(sample);
        match self.position(&primers) {
            Some(i) => {
                proof {
                    lemma_entries_update(self.sample_table@, i as int, (primers, sample));
                }
                self.sample_table.set(i, (primers, sample));
            },
            None => {
                let ghost before = self.sample_table@;
                self.sample_table.push((primers, sample));
                assert(self.sample_table@.drop_last() =~= before);
                assert(unique_keys(self.sample_table@)) by {
                    assert forall|a: int, b: int|
                        0 <= a < self.sample_table@.len() && 0 <= b < self.sample_table@.len() && a
                            != b implies pair_key(#[trigger] self.sample_table@[a].0) != pair_key(
                        #[trigger] self.sample_table@[b].0,
                    ) by {
                        if a < before.len() {
                            assert(self.sample_table@[a] == before[a]);
                        }
                        if b < before.len() {
                            assert(self.sample_table@[b] == before[b]);
                        }
                    }
                }
            },
        }
    }

    /// Records a non-control sample named `name` for the pair `(forward, reverse)`.
    pub fn insert_by_names(&mut self, forward: &str, reverse: &str, name: &str)
        requires
            old(self).wf(),
        ensures
            final(self).wf(),
            final(self)@ == old(self)@.insert((forward@, reverse@), (name@, false)),
            final(self).forward_labels() == old(self).forward_labels().insert(forward@),
            final(self).reverse_labels() == old(self).reverse_labels().insert(reverse@),
    {
        self.insert(
            PrimerPair { forward: forward.to_owned(), reverse: reverse.to_owned() },
            SampleData { name: name.to_owned(), is_control: false },
        );
    }

    /// The sample recorded for `primers`, if any; a pair that was never
    /// inserted has none, which is no error.
    pub fn get(&self, primers: &PrimerPair) -> (r: Option<&SampleData>)
        requires
            self.wf(),
        ensures
            match r {
                Some(d) => self@.contains_key(pair_key(*primers)) && self@[pair_key(*primers)]
                    == sample_view(*d),
                None => !self@.contains_key(pair_key(*primers)),
            },
    {
        match self.position(primers) {
            Some(i) => {
                proof {
                    lemma_entries_lookup(self.sample_table@, i as int);
                }
                Some(&self.sample_table[i].1)
            },
            None => {
                proof {
                    lemma_entries_dom(self.sample_table@, pair_key(*primers));
                }
                None
            },
        }
    }

    /// Whether a sample is recorded for `primers`.
    pub fn contains_sample(&self, primers: &PrimerPair) -> (r: bool)
        requires
            self.wf(),
        ensures
            r == self@.contains_key(pair_key(*primers)),
    {
        self.get(primers).is_some()
    }
}

/// The listing of entries, one line `forward<TAB>reverse<TAB>name` each.
pub open spec fn narrow_text(es: Seq<(PairKey, SampleView)>) -> Seq<char>
    decreases es.len(),
{
    if es.len() == 0 {
        seq![]
    } else {
        let e = es.last();
        narrow_text(es.drop_last()) + e.0.0 + seq!['\t'] + e.0.1 + seq!['\t'] + e.1.0 + seq!['\n']
    }
}

/// The cell of a wide table: the sample name, or `-` where the pair has none.
pub open spec fn cell(m: Map<PairKey, SampleView>, f: Seq<char>, r: Seq<char>) -> Seq<char> {
    if m.contains_key((f, r)) {
        m[(f, r)].0
    } else {
        seq!['-']
    }
}

/// The first line of a wide table: a tab before each reverse label.
pub open spec fn wide_header(revs: Seq<Seq<char>>) -> Seq<char>
    decreases revs.len(),
{
    if revs.len() == 0 {
        seq![]
    } else {
        wide_header(revs.drop_last()) + seq!['\t'] + revs.last()
    }
}

/// A row of a wide table without its line end: the forward label, then a tab
/// and a cell for each reverse label.
pub open spec fn wide_row(m: Map<PairKey, SampleView>, f: Seq<char>, revs: Seq<Seq<char>>) -> Seq<char>
    decreases revs.len(),
{
    if revs.len() == 0 {
        f
    } else {
        wide_row(m, f, revs.drop_last()) + seq!['\t'] + cell(m, f, revs.last())
    }
}

/// The lines of a wide table below its header.
pub open spec fn wide_body(m: Map<PairKey, SampleView>, fwds: Seq<Seq<char>>, revs: Seq<Seq<char>>) -> Seq<char>
    decreases fwds.len(),
{
    if fwds.len() == 0 {
        seq![]
    } else {
        wide_body(m, fwds.drop_last(), revs) + wide_row(m, fwds.last(), revs) + seq!['\n']
    }
}

impl SamplesTable {
    /// The entries in the order in which they are kept.
    pub closed spec fn entry_order(&self) -> Seq<(PairKey, SampleView)> {
        self.sample_table@.map_values(|e: (PrimerPair, SampleData)| (pair_key(e.0), sample_view(e.1)))
    }

    /// The forward labels in the order in which they were first seen.
    pub closed spec fn forward_order(&self) -> Seq<Seq<char>> {
        string_views(self.forward_primers@)
    }

    /// The reverse labels in the order in which they were first seen.
    pub closed spec fn reverse_order(&self) -> Seq<Seq<char>> {
        string_views(self.reverse_primers@)
    }

    /// One line `forward<TAB>reverse<TAB>name` for each sample; every pair of
    /// the registry appears exactly once.
    pub fn to_narrow_string(&self) -> (r: String)
        requires
            self.wf(),
        ensures
            r@ == narrow_text(self.entry_order()),
            forall|i: int| 0 <= i < self.entry_order().len() ==> self@.contains_key(
                (#[trigger] self.entry_order()[i]).0,
            ) && self@[self.entry_order()[i].0] == self.entry_order()[i].1,
            forall|i: int, j: int|
                0 <= i < self.entry_order().len() && 0 <= j < self.entry_order().len() && i != j
                    ==> (#[trigger] self.entry_order()[i]).0 != (#[trigger] self.entry_order()[j]).0,
            forall|k: PairKey| #[trigger]
                self@.contains_key(k) ==> exists|i: int|
                    0 <= i < self.entry_order().len() && (#[trigger] self.entry_order()[i]).0 == k,
    {
        let ghost es = self.entry_order();
        proof {
            reveal_strlit("\t");
            reveal_strlit("\n");
            assert("\t"@ =~= seq!['\t']);
            assert("\n"@ =~= seq!['\n']);
            assert forall|i: int| 0 <= i < es.len() implies self@.contains_key((#[trigger] es[i]).0)
                && self@[es[i].0] == es[i].1 by {
                lemma_entries_lookup(self.sample_table@, i);
            }
            assert forall|k: PairKey| #[trigger] self@.contains_key(k) implies exists|i: int|
                0 <= i < es.len() && (#[trigger] es[i]).0 == k by {
                lemma_entries_dom(self.sample_table@, k);
                let i = choose|i: int| 0 <= i < self.sample_table@.len() && pair_key(#[trigger] self.sample_table@[i].0) == k;
                assert(es[i].0 == k);
            }
        }
        let mut out = String::new();
        let mut i: usize = 0;
        while i < self.sample_table.len()
            invariant
                i <= self.sample_table@.len(),
                es == self.entry_order(),
                "\t"@ == seq!['\t'],
                "\n"@ == seq!['\n'],
                out@ == narrow_text(es.take(i as int)),
            decreases self.sample_table.len() - i,
        {
            let e = &self.sample_table[i];
            out.append(e.0.forward.as_str());
            out.append("\t");
            out.append(e.0.reverse.as_str());
            out.append("\t");
            out.append(e.1.name.as_str());
            out.append("\n");
            assert(es.take(i + 1).drop_last() =~= es.take(i as int));
            assert(es.take(i + 1).last() == es[i as int]);
            i = i + 1;
        }
        assert(es.take(es.len() as int) =~= es);
        out
    }

    /// The registry as a wide table: a first line with a tab before each
    /// reverse label, then for each forward label a line with that label and,
    /// for each reverse label, a tab and the sample name (`-` for none).
    pub fn to_wide_string(&self) -> (r: String)
        requires
            self.wf(),
        ensures
            r@ == wide_header(self.reverse_order()) + seq!['\n'] + wide_body(
                self@,
                self.forward_order(),
                self.reverse_order(),
            ),
            self.forward_order().to_set() == self.forward_labels(),
            self.reverse_order().to_set() == self.reverse_labels(),
    {
        let ghost fwds = self.forward_order();
        let ghost revs = self.reverse_order();
        proof {
            reveal_strlit("\t");
            reveal_strlit("\n");
            reveal_strlit("-");
            assert("\t"@ =~= seq!['\t']);
            assert("\n"@ =~= seq!['\n']);
            assert("-"@ =~= seq!['-']);
        }
        let mut out = String::new();
        let mut j: usize = 0;
        while j < self.reverse_primers.len()
            invariant
                j <= self.reverse_primers@.len(),
                revs == self.reverse_order(),
                "\t"@ == seq!['\t'],
                out@ == wide_header(revs.take(j as int)),
            decreases self.reverse_primers.len() - j,
        {
            out.append("\t");
            out.append(self.reverse_primers[j].as_str());
            assert(revs.take(j + 1).drop_last() =~= revs.take(j as int));
            j = j + 1;
        }
        assert(revs.take(revs.len() as int) =~= revs);
        out.append("\n");
        let ghost head = out@;
        let mut i: usize = 0;
        while i < self.forward_primers.len()
            invariant
                i <= self.forward_primers@.len(),
                self.wf(),
                fwds == self.forward_order(),
                revs == self.reverse_order(),
                "\t"@ == seq!['\t'],
                "\n"@ == seq!['\n'],
                "-"@ == seq!['-'],
                out@ == head + wide_body(self@, fwds.take(i as int), revs),
            decreases self.forward_primers.len() - i,
        {
            let f = &self.forward_primers[i];
            let ghost row_start = out@;
            out.append(f.as_str());
            let mut k: usize = 0;
            while k < self.reverse_primers.len()
                invariant
                    k <= self.reverse_primers@.len(),
                    i < self.forward_primers@.len(),
                    self.wf(),
                    revs == self.reverse_order(),
                    f@ == fwds[i as int],
                    fwds == self.forward_order(),
                    "\t"@ == seq!['\t'],
                    "-"@ == seq!['-'],
                    out@ == row_start + wide_row(self@, f@, revs.take(k as int)),
                decreases self.reverse_primers.len() - k,
            {
                out.append("\t");
                let key = PrimerPair { forward: f.clone(), reverse: self.reverse_primers[k].clone() };
                match self.get(&key) {
                    Some(d) => out.append(d.name.as_str()),
                    None => out.append("-"),
                }
                assert(revs.take(k + 1).drop_last() =~= revs.take(k as int));
                assert(revs.take(k + 1).last() == self.reverse_primers@[k as int]@);
                k = k + 1;
            }
            out.append("\n");
            assert(revs.take(revs.len() as int) =~= revs);
            assert(fwds.take(i + 1).drop_last() =~= fwds.take(i as int));
            assert(fwds.take(i + 1).last() == f@);
            i = i + 1;
        }
        assert(fwds.take(fwds.len() as int) =~= fwds);
        out
    }
}

/// Why a sample table could not be had.
#[derive(Debug, PartialEq, Eq, Copy, Clone, Structural)]
pub enum TableError {
    /// The text holds no line besides blank and comment lines.
    NoLines,
    /// The first line, which names the reverse primers, does not begin with
    /// a space or a tab.
    HeaderNotIndented,
    /// A row names more samples than the first line names reverse primers.
    TooManyColumns,
    /// The source was asked to fail.
    Unavailable,
}

/// A registry of two samples, or `Unavailable` when `succeed` is false.
pub fn fake_samples_table(succeed: bool) -> (r: Result<SamplesTable, TableError>)
    ensures
        succeed ==> r is Ok && r->Ok_0.wf() && r->Ok_0@ == map![
            ("oVK001"@, "oVK010"@) => ("sample 1"@, false),
            ("oVK002"@, "oVK020"@) => ("sample 2"@, false),
        ],
        !succeed ==> r is Err && r->Err_0 == TableError::Unavailable,
{
    if succeed {
        let mut samples = SamplesTable::new();
        samples.insert_by_names("oVK001", "oVK010", "sample 1");
        samples.insert_by_names("oVK002", "oVK020", "sample 2");
        proof {
            assert(samples@ =~= map![
                ("oVK001"@, "oVK010"@) => ("sample 1"@, false),
                ("oVK002"@, "oVK020"@) => ("sample 2"@, false),
            ]);
        }
        Ok(samples)
    } else {
        Err(TableError::Unavailable)
    }
}

/// A character of Unicode's White_Space property.
pub open spec fn is_white_space(c: char) -> bool {
    let u = c as u32;
    (9 <= u <= 13) || u == 32 || u == 0x85 || u == 0xa0 || u == 0x1680 || (0x2000 <= u <= 0x200a)
        || u == 0x2028 || u == 0x2029 || u == 0x202f || u == 0x205f || u == 0x3000
}

/// One of the five ASCII whitespace characters: tab, line feed, form feed,
/// carriage return, space.
pub open spec fn is_ascii_white_space(c: char) -> bool {
    c == '\t' || c == '\n' || c == '\x0C' || c == '\r' || c == ' '
}

/// A line made of whitespace alone (or of nothing).
pub open spec fn is_blank(l: Seq<char>) -> bool {
    forall|i: int| 0 <= i < l.len() ==> is_white_space(#[trigger] l[i])
}

/// A line whose first character after leading whitespace is `#`.
pub open spec fn is_comment(l: Seq<char>) -> bool {
    exists|j: int|
        0 <= j < l.len() && #[trigger] l[j] == '#' && forall|k: int| 0 <= k < j ==> is_white_space(
            #[trigger] l[k],
        )
}

/// A line that begins with a space or a tab.
pub open spec fn is_indented(l: Seq<char>) -> bool {
    l.len() > 0 && (l[0] == ' ' || l[0] == '\t')
}

/// The fields of a line: its maximal runs of characters other than ASCII
/// whitespace, in order.
pub open spec fn fields_of(s: Seq<char>) -> Seq<Seq<char>>
    decreases s.len(),
{
    if s.len() == 0 {
        seq![]
    } else {
        let f = fields_of(s.drop_last());
        let c = s.last();
        if is_ascii_white_space(c) {
            f
        } else if s.len() >= 2 && !is_ascii_white_space(s[s.len() - 2]) {
            f.drop_last().push(f.last().push(c))
        } else {
            f.push(seq![c])
        }
    }
}

/// The lines that carry content: neither blank nor comments.
pub open spec fn content(lines: Seq<Seq<char>>) -> Seq<Seq<char>>
    decreases lines.len(),
{
    if lines.len() == 0 {
        seq![]
    } else {
        let rest = content(lines.drop_last());
        let l = lines.last();
        if is_blank(l) || is_comment(l) {
            rest
        } else {
            rest.push(l)
        }
    }
}

/// `m` with the samples `names` of forward primer `fp`, the k-th under the
/// k-th reverse primer of `header`.
pub open spec fn row_map(
    m: Map<PairKey, SampleView>,
    fp: Seq<char>,
    header: Seq<Seq<char>>,
    names: Seq<Seq<char>>,
) -> Map<PairKey, SampleView>
    decreases names.len(),
{
    if names.len() == 0 {
        m
    } else {
        row_map(m, fp, header, names.drop_last()).insert(
            (fp, header[names.len() - 1]),
            (names.last(), false),
        )
    }
}

/// The registry that the rows below the header stand for, row by row, a later
/// cell replacing an earlier one of the same pair; `None` where a row has more
/// samples than `header` has reverse primers.
pub open spec fn rows_map(header: Seq<Seq<char>>, rows: Seq<Seq<char>>) -> Option<Map<PairKey, SampleView>>
    decreases rows.len(),
{
    if rows.len() == 0 {
        Some(Map::empty())
    } else {
        match rows_map(header, rows.drop_last()) {
            None => None,
            Some(m) => {
                let f = fields_of(rows.last());
                if f.len() == 0 {
                    Some(m)
                } else if f.len() - 1 > header.len() {
                    None
                } else {
                    Some(row_map(m, f[0], header, f.drop_first()))
                }
            },
        }
    }
}

/// What a wide table's lines stand for: the first content line, indented,
/// names the reverse primers; each later content line names a forward primer
/// and then its samples, column by column.
pub open spec fn wide_table_spec(lines: Seq<Seq<char>>) -> Result<Map<PairKey, SampleView>, TableError> {
    let c = content(lines);
    if c.len() == 0 {
        Err(TableError::NoLines)
    } else if !is_indented(c[0]) {
        Err(TableError::HeaderNotIndented)
    } else {
        match rows_map(fields_of(c[0]), c.drop_first()) {
            Some(m) => Ok(m),
            None => Err(TableError::TooManyColumns),
        }
    }
}

/// Whether `c` is a character of Unicode's White_Space property.
pub fn is_white_space_char(c: char) -> (r: bool)
    ensures
        r == is_white_space(c),
{
    let u = c as u32;
    (9 <= u && u <= 13) || u == 32 || u == 0x85 || u == 0xa0 || u == 0x1680 || (0x2000 <= u && u
        <= 0x200a) || u == 0x2028 || u == 0x2029 || u == 0x202f || u == 0x205f || u == 0x3000
}

/// Whether the line is blank or a comment.
fn is_skipped(line: &str) -> (r: bool)
    ensures
        r == (is_blank(line@) || is_comment(line@)),
{
    let n = line.unicode_len();
    let mut j: usize = 0;
    while j < n
        invariant
            n == line@.len(),
            j <= n,
            forall|k: int| 0 <= k < j ==> is_white_space(#[trigger] line@[k]),
        decreases n - j,
    {
        let c = line.get_char(j);
        if !is_white_space_char(c) {
            if c == '#' {
                assert(line@[j as int] == '#');
                return true;
            } else {
                assert(!is_blank(line@));
                assert(!is_comment(line@)) by {
                    if is_comment(line@) {
                        let q = choose|q: int|
                            0 <= q < line@.len() && #[trigger] line@[q] == '#' && forall|k: int|
                                0 <= k < q ==> is_white_space(#[trigger] line@[k]);
                        if q < j {
                            assert(is_white_space(line@[q]));
                        } else if q > j {
                            assert(is_white_space(line@[j as int]));
                        }
                    }
                }
                return false;
            }
        }
        j = j + 1;
    }
    true
}

/// Whether the line begins with a space or a tab.
fn starts_indented(line: &str) -> (r: bool)
    ensures
        r == is_indented(line@),
{
    if line.unicode_len() == 0 {
        return false;
    }
    let c = line.get_char(0);
    c == ' ' || c == '\t'
}

/// Relies on str::split_ascii_whitespace: the maximal runs of characters
/// other than ASCII whitespace, in order, none of them empty.
#[verifier::external_body]
fn split_fields(line: &str) -> (r: Vec<String>)
    ensures
        string_views(r@) == fields_of(line@),
{
    line.split_ascii_whitespace().map(|t| t.to_string()).collect()
}

/// Adds to `table` the samples of one row: `fields[0]` is the forward primer,
/// `fields[k]` the sample under the reverse primer `header[k - 1]`.
fn insert_row(table: &mut SamplesTable, header: &Vec<String>, fields: &Vec<String>)
    requires
        old(table).wf(),
        fields@.len() >= 1,
        fields@.len() - 1 <= header@.len(),
    ensures
        final(table).wf(),
        final(table)@ == row_map(
            old(table)@,
            fields@[0]@,
            string_views(header@),
            string_views(fields@).drop_first(),
        ),
{
    let ghost names = string_views(fields@).drop_first();
    let ghost h = string_views(header@);
    let mut c: usize = 1;
    while c < fields.len()
        invariant
            1 <= c <= fields@.len(),
            fields@.len() - 1 <= header@.len(),
            names == string_views(fields@).drop_first(),
            h == string_views(header@),
            table.wf(),
            table@ == row_map(old(table)@, fields@[0]@, h, names.take(c - 1)),
        decreases fields.len() - c,
    {
        table.insert_by_names(fields[0].as_str(), header[c - 1].as_str(), fields[c].as_str());
        assert(names.take(c as int).drop_last() =~= names.take(c - 1));
        assert(names.take(c as int).last() == fields@[c as int]@);
        assert(h[c - 1] == header@[c - 1]@);
        c = c + 1;
    }
    assert(names.take(c - 1) =~= names);
}

/// Reads a wide sample table from its lines. Blank lines and lines whose
/// first non-whitespace character is `#` are ignored. The first remaining
/// line begins with whitespace and names the reverse primers; each later one
/// names a forward primer, then the samples under each reverse primer in turn.
pub fn read_wide_table(lines: &Vec<String>) -> (r: Result<SamplesTable, TableError>)
    ensures
        match wide_table_spec(string_views(lines@)) {
            Ok(m) => r is Ok && r->Ok_0.wf() && r->Ok_0@ == m,
            Err(e) => r is Err && r->Err_0 == e,
        },
{
    let ghost all = string_views(lines@);
    let mut table = SamplesTable::new();
    let mut header: Vec<String> = Vec::new();
    let mut have_header = false;
    let mut header_ok = false;
    let mut too_wide = false;
    let mut i: usize = 0;
    while i < lines.len()
        invariant
            i <= lines@.len(),
            all == string_views(lines@),
            table.wf(),
            too_wide ==> have_header && header_ok,
            !have_header ==> content(all.take(i as int)).len() == 0 && table@ == Map::<
                PairKey,
                SampleView,
            >::empty(),
            have_header ==> content(all.take(i as int)).len() >= 1 && header_ok == is_indented(
                content(all.take(i as int))[0],
            ),
            have_header && header_ok ==> string_views(header@) == fields_of(
                content(all.take(i as int))[0],
            ),
            have_header && header_ok && !too_wide ==> rows_map(
                string_views(header@),
                content(all.take(i as int)).drop_first(),
            ) == Some(table@),
            have_header && header_ok && too_wide ==> rows_map(
                string_views(header@),
                content(all.take(i as int)).drop_first(),
            ) is None,
        decreases lines.len() - i,
    {
        let line = lines[i].as_str();
        let ghost before = content(all.take(i as int));
        assert(all.take(i + 1).drop_last() =~= all.take(i as int));
        assert(all.take(i + 1).last() == line@);
        if is_skipped(line) {
            assert(content(all.take(i + 1)) == before);
        } else {
            assert(content(all.take(i + 1)) == before.push(line@));
            if !have_header {
                have_header = true;
                header_ok = starts_indented(line);
                if header_ok {
                    header = split_fields(line);
                }
                assert(before.push(line@).drop_first() =~= seq![]);
            } else {
                assert(before.push(line@)[0] == before[0]);
                assert(before.push(line@).drop_first() =~= before.drop_first().push(line@));
                assert(before.push(line@).drop_first().drop_last() =~= before.drop_first());
                assert(before.push(line@).drop_first().last() == line@);
                if header_ok && !too_wide {
                    let fields = split_fields(line);
                    if fields.len() > 0 {
                        if fields.len() - 1 > header.len() {
                            proof {
                                let rows = before.push(line@).drop_first();
                                assert(fields_of(rows.last()).len() == fields@.len());
                                assert(rows_map(string_views(header@), rows) is None);
                            }
                            too_wide = true;
                        } else {
                            insert_row(&mut table, &header, &fields);
                        }
                    }
                }
                proof {
                    let rows = before.push(line@).drop_first();
                    if header_ok && too_wide {
                        assert(rows_map(string_views(header@), rows.drop_last()) is None
                            || rows_map(string_views(header@), rows) is None);
                        assert(rows_map(string_views(header@), rows) is None);
                    }
                }
            }
        }
        i = i + 1;
    }
    assert(all.take(lines@.len() as int) =~= all);
    if !have_header {
        Err(TableError::NoLines)
    } else if !header_ok {
        Err(TableError::HeaderNotIndented)
    } else if too_wide {
        Err(TableError::TooManyColumns)
    } else {
        Ok(table)
    }
}

} // verus!
