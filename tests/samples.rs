use myfq::samples::{
    fake_samples_table, read_wide_table, is_white_space_char, PrimerPair, SampleData, SamplesTable,
    TableError,
};

fn pair(f: &str, r: &str) -> PrimerPair {
    PrimerPair { forward: f.to_string(), reverse: r.to_string() }
}

fn lines(text: &[&str]) -> Vec<String> {
    text.iter().map(|l| l.to_string()).collect()
}

#[test]
fn create_samples_table() {
    let mut t: SamplesTable = SamplesTable::new();
    t.insert(
        PrimerPair {
            forward: "p001".to_string(),
            reverse: "p010".to_string(),
        },
        SampleData {
            name: "sample_1".to_string(),
            is_control: false,
        },
    );
}

#[test]
fn add_sample_by_names() {
    let mut t: SamplesTable = SamplesTable::new();
    t.insert_by_names("p001", "p010", "sample_1");
}

#[test]
fn write_wide_table() {
    let mut t: SamplesTable = SamplesTable::new();
    t.insert(
        PrimerPair {
            forward: "p001".to_string(),
            reverse: "p010".to_string(),
        },
        SampleData {
            name: "sample_1".to_string(),
            is_control: false,
        },
    );

    let s: String = t.to_wide_string();
    s.find("p001").expect("fwd not found");
    s.find("p010").expect("rev not found");
    s.find("sample_1").expect("name not found");
}

#[test]
fn write_narrow_table() {
    let mut t: SamplesTable = SamplesTable::new();
    t.insert(
        PrimerPair {
            forward: "p001".to_string(),
            reverse: "p010".to_string(),
        },
        SampleData {
            name: "sample_1".to_string(),
            is_control: false,
        },
    );

    let s: String = t.to_narrow_string();
    s.find("p001").expect("fwd not found");
    s.find("p010").expect("rev not found");
    s.find("sample_1").expect("name not found");
}

#[test]
fn read_sample_table_good() {
    let text = lines(&["# samples", "\toVK790\toVK792", "", "oVK789\ts1\ts2", "oVK791\ts3"]);
    let samples_table = read_wide_table(&text).expect("Unable to open samples table.");
    assert!(samples_table.contains_sample(&PrimerPair {
        forward: "oVK789".to_string(),
        reverse: "oVK790".to_string()
    }));
    assert_eq!(samples_table.get(&pair("oVK789", "oVK792")).unwrap().name, "s2");
    assert_eq!(samples_table.get(&pair("oVK791", "oVK790")).unwrap().name, "s3");
    assert!(samples_table.get(&pair("oVK791", "oVK792")).is_none());
}

#[test]
fn read_sample_table_empty() {
    let samples_table = read_wide_table(&lines(&[]));
    match samples_table {
        Ok(_) => panic!("Reading an empty sample table does not return an error."),
        Err(e) => assert_eq!(e, TableError::NoLines),
    }
}

#[test]
fn wide_table_with_only_blank_and_comment_lines_is_empty() {
    let r = read_wide_table(&lines(&["   ", "  # note", "\u{a0}\u{3000}"]));
    assert_eq!(r.err(), Some(TableError::NoLines));
}

#[test]
fn wide_table_header_must_be_indented() {
    let r = read_wide_table(&lines(&["oVK790\toVK791", "oVK001\ts1"]));
    assert_eq!(r.err(), Some(TableError::HeaderNotIndented));
}

#[test]
fn wide_table_row_longer_than_header() {
    let r = read_wide_table(&lines(&[" r1", "f1 s1 s2"]));
    assert_eq!(r.err(), Some(TableError::TooManyColumns));
}

#[test]
fn wide_table_later_cell_replaces_earlier() {
    let t = read_wide_table(&lines(&[" r1 r2", "f1 a b", "f1 c"])).unwrap();
    assert_eq!(t.get(&pair("f1", "r1")).unwrap().name, "c");
    assert_eq!(t.get(&pair("f1", "r2")).unwrap().name, "b");
    assert!(!t.get(&pair("f1", "r1")).unwrap().is_control);
}

#[test]
fn registry_lookup() {
    let mut t = SamplesTable::new();
    t.insert_by_names("oVK001", "oVK010", "sample 1");
    assert_eq!(t.get(&pair("oVK001", "oVK010")).unwrap().name, "sample 1");
    assert!(t.get(&pair("oVK010", "oVK001")).is_none());
    assert!(t.get(&pair("oVK001", "oVK020")).is_none());
    assert!(!t.contains_sample(&pair("oVK002", "oVK010")));
}

#[test]
fn insert_replaces_sample_of_same_pair() {
    let mut t = SamplesTable::new();
    t.insert_by_names("f", "r", "old");
    t.insert(pair("f", "r"), SampleData { name: "new".to_string(), is_control: true });
    let d = t.get(&pair("f", "r")).unwrap();
    assert_eq!(d.name, "new");
    assert!(d.is_control);
    assert_eq!(t.to_narrow_string(), "f\tr\tnew\n");
}

#[test]
fn fake_table() {
    let t = fake_samples_table(true).unwrap();
    assert_eq!(t.get(&pair("oVK001", "oVK010")).unwrap().name, "sample 1");
    assert_eq!(t.get(&pair("oVK002", "oVK020")).unwrap().name, "sample 2");
    assert!(t.get(&pair("oVK001", "oVK020")).is_none());
    assert_eq!(fake_samples_table(false).err(), Some(TableError::Unavailable));
}

#[test]
fn wide_rendering_layout() {
    let mut t = SamplesTable::new();
    t.insert_by_names("f1", "r1", "a");
    t.insert_by_names("f2", "r2", "b");
    assert_eq!(t.to_wide_string(), "\tr1\tr2\nf1\ta\t-\nf2\t-\tb\n");
    assert_eq!(t.to_narrow_string(), "f1\tr1\ta\nf2\tr2\tb\n");
}

#[test]
fn white_space_characters() {
    assert!(is_white_space_char(' '));
    assert!(is_white_space_char('\u{2003}'));
    assert!(!is_white_space_char('#'));
    assert!(!is_white_space_char('\u{200b}'));
}
