use myfq::dna::{is_valid_dna, reverse_complement};
use myfq::primers::{
    direction_from_token, primer_from_record, primer_table_from_records, Direction, InvalidPrimer,
    Primer, PrimerRecord,
};

#[test]
fn can_create_a_primer() {
    let seq = b"ACTGACTGACTG";
    let bc = b"GACT";
    let p = Primer::new("primer", seq, bc, Direction::Forward);
    assert!(p.check() == Ok(()));
}

#[test]
fn invalid_primer_sequence() {
    let seq = b"ACTGAXTGACTG";
    let bc = b"GACT";
    let p = Primer::new("primer", seq, bc, Direction::Forward);
    assert!(p.check().is_err());
}

#[test]
fn primer_sequence_found() {
    let seq = b"GATACA";
    let bc = b"GAT";
    let p = Primer::new("primer", seq, bc, Direction::Forward);
    let sequence = b"ACTGACTGAGATACAGACTGACTGACTGACTGACTGACTGACTG";
    assert!(p.is_found_in(sequence));
}

#[test]
fn primer_rc_sequence_found() {
    let seq = b"GATACA";
    let bc = b"GAT";
    let p = Primer::new("primer", seq, bc, Direction::Forward);
    let sequence = b"ACTGACTGACTGACTGTATCTGACTGACTGACTGACTGACTG";
    assert!(p.is_found_in_rc(sequence));
}

#[test]
fn primer_sequence_not_found() {
    let seq = b"GATACA";
    let bc = b"GAT";
    let p = Primer::new("primer", seq, bc, Direction::Forward);
    let sequence = b"ACTGACTGACTGACTGACTGACTGACTGACTGACTG";
    assert!(!p.is_found_in(sequence));
}

#[test]
fn primer_sequence_front_truncated() {
    let seq = b"GATACA";
    let bc = b"GAT";
    let p = Primer::new("primer", seq, bc, Direction::Forward);
    let sequence = b"ATACAACTGACTGACTGACTGACTGACTGACTGACTGACTG";
    assert!(!p.is_found_in(sequence));
}

#[test]
fn primer_sequence_end_truncated() {
    let seq = b"GATACA";
    let bc = b"GAT";
    let p = Primer::new("primer", seq, bc, Direction::Forward);
    let sequence = b"ACTGACTGACTGACTGACTGACTGACTGACTGACTGGATAC";
    assert!(!p.is_found_in(sequence));
}

#[test]
fn retrieve_primer_labels() {
    let seq = b"GATACA";
    let bc = b"GAT";
    let p = Primer::new("primer", seq, bc, Direction::Forward);
    assert_eq!(p.label(), "primer");
    assert_eq!(p.label_rc(), "primerrc");
}

#[test]
fn test_direction() {
    let d = Direction::Forward;
    assert_eq!(d, Direction::Forward);
    assert_eq!(d.opposite(), Direction::Reverse);
}

#[test]
fn reverse_of_reverse_direction_is_forward() {
    assert_eq!(Direction::Reverse.opposite(), Direction::Forward);
}

#[test]
fn reverse_complement_of_plain_and_iupac_symbols() {
    assert_eq!(reverse_complement(b"ACGTN"), b"NACGT".to_vec());
    assert_eq!(reverse_complement(b"GaTtaCA"), b"TGtaAtC".to_vec());
    assert_eq!(reverse_complement(b"GATACA"), b"TGTATC".to_vec());
    assert_eq!(reverse_complement(b""), Vec::<u8>::new());
}

#[test]
fn reverse_complement_twice_gives_sequence_back() {
    let s = b"ACTGACTGGGCCAT";
    assert_eq!(reverse_complement(&reverse_complement(s)), s.to_vec());
}

#[test]
fn dna_alphabet_check() {
    assert!(is_valid_dna(b"ACGTacgt"));
    assert!(!is_valid_dna(b"ACTGAXTG"));
    assert!(!is_valid_dna(b"ACGTN"));
}

#[test]
fn empty_label_is_invalid() {
    let p = Primer::new("", b"ACTGACTG", b"GA", Direction::Forward);
    assert_eq!(p.check(), Err(InvalidPrimer::EmptyLabel));
}

#[test]
fn symbol_x_is_invalid() {
    let p = Primer::new("label", b"ACTGAXTG", b"GA", Direction::Reverse);
    assert_eq!(p.check(), Err(InvalidPrimer::InvalidSequence));
}

#[test]
fn primer_equal_to_read_is_found() {
    let p = Primer::new("p", b"GATACA", b"", Direction::Forward);
    assert!(p.is_found_in(b"GATACA"));
    assert!(!p.is_found_in(b""));
    assert!(!p.is_found_in_rc(b""));
}

#[test]
fn rc_search_uses_reverse_complement() {
    let p = Primer::new("p", b"GATACA", b"", Direction::Forward);
    assert!(!p.is_found_in_rc(b"AAGATACAAA"));
    assert!(p.is_found_in_rc(b"AATGTATCAA"));
    assert_eq!(p.direction(), Direction::Forward);
}

fn record(label: &str, sequence: &str, direction: &str) -> PrimerRecord {
    PrimerRecord {
        label: label.to_string(),
        sequence: sequence.to_string(),
        barcode: "GA".to_string(),
        direction: direction.to_string(),
    }
}

#[test]
fn direction_tokens() {
    assert_eq!(direction_from_token("F"), Direction::Forward);
    assert_eq!(direction_from_token("R"), Direction::Reverse);
    assert_eq!(direction_from_token("f"), Direction::Reverse);
    assert_eq!(direction_from_token("FF"), Direction::Reverse);
}

#[test]
fn records_become_primers_or_rejections() {
    assert_eq!(primer_from_record(&record("", "ACGT", "F")).err(), Some(InvalidPrimer::EmptyLabel));
    assert_eq!(primer_from_record(&record("a", "", "F")).err(), Some(InvalidPrimer::EmptySequence));
    assert_eq!(
        primer_from_record(&record("a", "ACXT", "F")).err(),
        Some(InvalidPrimer::InvalidSequence)
    );
    let p = primer_from_record(&record("a", "ACGT", "F")).unwrap();
    assert_eq!(p.label(), "a");
    assert_eq!(p.direction(), Direction::Forward);

    let records = vec![record("F1", "ACTGACTG", "F"), record("", "ACGT", "R"), record("R1", "GGGGCCCC", "R")];
    let (table, rejected) = primer_table_from_records(&records);
    assert_eq!(table.len(), 2);
    assert_eq!(table[1].label(), "R1");
    assert_eq!(table[1].direction(), Direction::Reverse);
    assert_eq!(rejected, vec![(1, InvalidPrimer::EmptyLabel)]);
}
