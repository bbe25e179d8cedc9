use myfq::classify::{classify, classify_read, diagnostic, found_labels, resolve_sample, Classification, RunCounts};
use myfq::primers::{Direction, Primer};
use myfq::samples::SamplesTable;

fn table() -> Vec<Primer> {
    vec![
        Primer::new("F1", b"ACTGACTG", b"", Direction::Forward),
        Primer::new("R1", b"GGGGCCCC", b"", Direction::Reverse),
    ]
}

#[test]
fn one_forward_and_one_reverse_match() {
    let t = table();
    let read = b"TTTACTGACTGTTTTTGGGGCCCCTTT";
    let mut counts = RunCounts::new();
    let tag = classify_read(&t, read, &mut counts);
    assert_eq!(tag, "primers:F1-R1");
    assert_eq!(counts, RunCounts { records_read: 1, records_error: 0 });
    match classify(&t, read) {
        Classification::Matched { forward, reverse } => {
            assert_eq!(forward, "F1");
            assert_eq!(reverse, "R1");
        }
        other => panic!("unexpected outcome {:?}", other),
    }
}

#[test]
fn two_forward_candidates_are_invalid() {
    let mut t = table();
    t.push(Primer::new("F2", b"ACTGACTG", b"", Direction::Forward));
    let read = b"TTTACTGACTGTTTTTGGGGCCCCTTT";
    let mut counts = RunCounts::new();
    assert_eq!(classify_read(&t, read, &mut counts), "primers:invalid");
    assert_eq!(counts.records_error, 1);
    assert!(matches!(classify(&t, read), Classification::Ambiguous));
}

#[test]
fn no_primer_is_invalid() {
    let t = table();
    let read = b"TTTTTTTTTTTTTTTTTTT";
    let mut counts = RunCounts::new();
    assert_eq!(classify_read(&t, read, &mut counts), "primers:invalid");
    assert_eq!(counts, RunCounts { records_read: 1, records_error: 1 });
    assert!(matches!(classify(&t, read), Classification::Unmatched));
}

#[test]
fn only_one_end_is_unmatched() {
    let t = table();
    assert!(matches!(classify(&t, b"AACTGACTGAA"), Classification::Unmatched));
}

#[test]
fn reverse_complement_hit_keeps_declared_direction() {
    let t = table();
    // CAGTCAGT is the reverse complement of ACTGACTG.
    let read = b"AACAGTCAGTAAGGGGCCCCAA";
    match classify(&t, read) {
        Classification::Matched { forward, reverse } => {
            assert_eq!(forward, "F1");
            assert_eq!(reverse, "R1");
        }
        other => panic!("unexpected outcome {:?}", other),
    }
    assert_eq!(found_labels(&t, read), vec!["F1rc".to_string(), "R1".to_string(), "R1rc".to_string()]);
    assert_eq!(diagnostic(&t, read), "F1rc:R1:R1rc");
}

#[test]
fn diagnostic_of_read_without_primers_is_empty() {
    assert_eq!(diagnostic(&table(), b"TTTT"), "");
}

#[test]
fn classifying_twice_gives_the_same_answer() {
    let t = table();
    let read = b"TTTACTGACTGTTTTTGGGGCCCCTTT";
    let mut counts = RunCounts::new();
    let a = classify_read(&t, read, &mut counts);
    let b = classify_read(&t, read, &mut counts);
    assert_eq!(a, b);
    assert_eq!(found_labels(&t, read), found_labels(&t, read));
    assert_eq!(counts.records_read, 2);
}

#[test]
fn malformed_reads_count_as_errors() {
    let mut counts = RunCounts::new();
    counts.record_malformed();
    assert_eq!(counts, RunCounts { records_read: 1, records_error: 1 });
    let mut full = RunCounts { records_read: u64::MAX, records_error: 3 };
    full.record_malformed();
    assert_eq!(full, RunCounts { records_read: u64::MAX, records_error: 4 });
}

#[test]
fn matched_read_resolves_to_sample() {
    let t = table();
    let mut samples = SamplesTable::new();
    samples.insert_by_names("F1", "R1", "sample 1");
    let c = classify(&t, b"TTTACTGACTGTTTTTGGGGCCCCTTT");
    assert_eq!(resolve_sample(&c, &samples).unwrap().name, "sample 1");
    assert!(resolve_sample(&Classification::Unmatched, &samples).is_none());
    let empty = SamplesTable::new();
    assert!(resolve_sample(&c, &empty).is_none());
    assert_eq!(c.tag(), "primers:F1-R1");
    assert!(!c.is_error());
    assert_eq!(Classification::Ambiguous.tag(), "primers:invalid");
}
