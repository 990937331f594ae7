//! The operations over columns with nulls.
use duck_pinyin::fields::{Final, Initial};
use duck_pinyin::rows::{
    match_list_rows, match_rows, parse_rows, render_rows, row_is_valid, Column, PatternError,
};
use duck_pinyin::tables::Tables;

/// A small set of tables.
fn tables() -> Tables {
    let syllables: [(&str, u16, u16); 26] = [
        ("a", 0x0002, 0x0300),
        ("ang", 0x0002, 0x0600),
        ("chi", 0x8004, 0x3100),
        ("guo", 0x0007, 0x4D00),
        ("hm", 0x8008, 0x1400),
        ("hng", 0x8008, 0x1500),
        ("hua", 0x0008, 0x4300),
        ("ju", 0x0009, 0x1300),
        ("liu", 0x000B, 0x2F00),
        ("lü", 0x000B, 0x1300),
        ("lüe", 0x000B, 0x7000),
        ("m", 0x800C, 0x0200),
        ("min", 0x000C, 0x2A00),
        ("n", 0x800D, 0x0200),
        ("ng", 0x800D, 0x1500),
        ("pang", 0x000E, 0x0600),
        ("ping", 0x000E, 0x2B00),
        ("ren", 0x0010, 0x0A00),
        ("shang", 0x8011, 0x0600),
        ("yan", 0x0015, 0x2500),
        ("za", 0x0016, 0x0300),
        ("zha", 0x8016, 0x0300),
        ("zhong", 0x8016, 0x0E00),
        ("zi", 0x0016, 0x5100),
        ("zui", 0x0016, 0x4900),
        ("ê", 0x0002, 0x1000),
    ];
    let initials: [(&str, u16); 23] = [
        ("b", 0x0003),
        ("c", 0x0004),
        ("ch", 0x8004),
        ("d", 0x0005),
        ("f", 0x0006),
        ("g", 0x0007),
        ("h", 0x0008),
        ("j", 0x0009),
        ("k", 0x000A),
        ("l", 0x000B),
        ("m", 0x000C),
        ("n", 0x000D),
        ("p", 0x000E),
        ("q", 0x000F),
        ("r", 0x0010),
        ("s", 0x0011),
        ("sh", 0x8011),
        ("t", 0x0012),
        ("w", 0x0013),
        ("x", 0x0014),
        ("y", 0x0015),
        ("z", 0x0016),
        ("zh", 0x8016),
    ];
    let finals: [(&str, u16); 19] = [
        ("a", 0x0300),
        ("ang", 0x0600),
        ("eh", 0x1000),
        ("i", 0x1100),
        ("ian", 0x2500),
        ("ieh", 0x3000),
        ("ien", 0x2A00),
        ("ieng", 0x2B00),
        ("ii", 0x5100),
        ("iou", 0x2F00),
        ("ong", 0x0E00),
        ("ri", 0x3100),
        ("uei", 0x4900),
        ("uen", 0x4A00),
        ("uo", 0x4D00),
        ("v", 0x1300),
        ("van", 0x6500),
        ("veh", 0x7000),
        ("ven", 0x6A00),
    ];
    let mut spellings: Vec<(u16, String)> =
        syllables.iter().map(|(name, i, f)| (i | f, name.to_string())).collect();
    spellings.sort();
    Tables::new(
        syllables
            .iter()
            .map(|(name, i, f)| (name.to_string(), Initial::from_bits(*i), Final::from_bits(*f)))
            .collect(),
        spellings,
        initials.iter().map(|(name, i)| (name.to_string(), Initial::from_bits(*i))).collect(),
        finals.iter().map(|(name, f)| (name.to_string(), Final::from_bits(*f))).collect(),
    )
    .expect("the tables hold together")
}

fn texts(rows: &[Option<&str>]) -> Vec<Option<String>> {
    rows.iter().map(|row| row.map(|text| text.to_string())).collect()
}

#[test]
fn validity_bits() {
    assert!(row_is_valid(None, 1000));
    let mask: [u64; 2] = [0b101, 1 << 63];
    assert!(row_is_valid(Some(&mask), 0));
    assert!(!row_is_valid(Some(&mask), 1));
    assert!(row_is_valid(Some(&mask), 2));
    assert!(!row_is_valid(Some(&mask), 63));
    assert!(!row_is_valid(Some(&mask), 64));
    assert!(row_is_valid(Some(&mask), 127));
}

#[test]
fn columns_have_nulls() {
    let mask: [u64; 1] = [0b10];
    let column: Column<u16> = Column { data: &[7, 8], validity: Some(&mask) };
    assert_eq!(column.get(0), None);
    assert_eq!(column.get(1), Some(8));
}

#[test]
fn matching_rows() {
    let tables: Tables = tables();
    let mask: [u64; 1] = [0b11101];
    let values: Column<u16> =
        Column { data: &[0x8E96, 0x8E96, 0x86D1, 0x8E16, 0x8E96], validity: Some(&mask) };
    let patterns: Vec<Option<String>> =
        texts(&[Some("zhong1"), Some("zzz"), Some("?ang"), None, Some("?ang")]);
    let answers: Vec<Option<bool>> = match_rows(&tables, &values, &patterns).unwrap();
    assert_eq!(answers, vec![Some(true), None, Some(true), None, Some(false)]);
}

#[test]
fn a_repeated_pattern_is_compiled_alike() {
    let tables: Tables = tables();
    let values: Column<u16> = Column { data: &[0x8E96, 0x86D1, 0x8E96, 0x86D1], validity: None };
    let patterns: Vec<Option<String>> =
        texts(&[Some("zh"), Some("zh"), Some("sh"), Some("sh")]);
    let answers: Vec<Option<bool>> = match_rows(&tables, &values, &patterns).unwrap();
    assert_eq!(answers, vec![Some(true), Some(false), Some(false), Some(true)]);
}

#[test]
fn the_first_illegal_pattern_is_raised() {
    let tables: Tables = tables();
    let values: Column<u16> = Column { data: &[0x8E96, 0x8E96, 0x8E96], validity: None };
    let patterns: Vec<Option<String>> = texts(&[Some("zh"), Some("zzz"), Some("yyy")]);
    let error: PatternError = match_rows(&tables, &values, &patterns).unwrap_err();
    assert_eq!(error.pattern, "zzz");
    assert_eq!(error.message(), "Invalid pinyin pattern: 'zzz'");
    let run: Vec<Option<String>> = texts(&[Some("**"), Some("zh"), Some("zh")]);
    assert_eq!(match_rows(&tables, &values, &run).unwrap_err().pattern, "**");
}

#[test]
fn matching_lists() {
    let tables: Tables = tables();
    // zhong guo | zhong null | (null list) | nothing | guo
    let element_mask: [u64; 1] = [0b10111];
    let elements: Column<u16> = Column {
        data: &[0x8E96, 0x4DA7, 0x8E96, 0xFFFF, 0x4DA7],
        validity: Some(&element_mask),
    };
    let entry_mask: [u64; 1] = [0b11011];
    let entries: Column<(usize, usize)> =
        Column { data: &[(0, 2), (2, 2), (0, 5), (5, 0), (4, 1)], validity: Some(&entry_mask) };
    let patterns: Vec<Option<String>> = texts(&[
        Some("zhong ** guo"),
        Some("zhong **"),
        Some("zhong"),
        Some("**"),
        Some("zhong"),
    ]);
    let answers: Vec<Option<bool>> =
        match_list_rows(&tables, &entries, &elements, &patterns).unwrap();
    assert_eq!(answers, vec![Some(true), None, None, Some(true), Some(false)]);
}

#[test]
fn matching_lists_without_nulls() {
    let tables: Tables = tables();
    let elements: Column<u16> = Column { data: &[0x8E96, 0x4DA7], validity: None };
    let entries: Column<(usize, usize)> =
        Column { data: &[(0, 2), (1, 1), (0, 1)], validity: None };
    let patterns: Vec<Option<String>> =
        texts(&[Some("zhong guo"), Some("zhong guo"), None]);
    let answers: Vec<Option<bool>> =
        match_list_rows(&tables, &entries, &elements, &patterns).unwrap();
    assert_eq!(answers, vec![Some(true), Some(false), None]);
}

#[test]
fn an_illegal_list_pattern_is_raised() {
    let tables: Tables = tables();
    let elements: Column<u16> = Column { data: &[0x8E96], validity: Some(&[0]) };
    let entries: Column<(usize, usize)> = Column { data: &[(0, 1)], validity: None };
    let patterns: Vec<Option<String>> = texts(&[Some("zhong zzz")]);
    let error: PatternError =
        match_list_rows(&tables, &entries, &elements, &patterns).unwrap_err();
    assert_eq!(error.message(), "Invalid pinyin pattern: 'zhong zzz'");
}

#[test]
fn casting_texts() {
    let tables: Tables = tables();
    let rows: Vec<Option<String>> =
        texts(&[Some("zhong1"), None, Some("zhōng"), Some("zzz"), Some("xxx")]);
    assert_eq!(
        parse_rows(&tables, &rows, true).unwrap(),
        vec![Some(0x8E96), None, Some(0x8E96), None, None]
    );
    assert_eq!(parse_rows(&tables, &rows, false).unwrap_err().input, "zzz");
    assert_eq!(
        parse_rows(&tables, &rows[..3], false).unwrap(),
        vec![Some(0x8E96), None, Some(0x8E96)]
    );
}

#[test]
fn casting_values() {
    let tables: Tables = tables();
    let mask: [u64; 1] = [0b101];
    let values: Column<u16> =
        Column { data: &[0x8E96, 0x8E96, 0x4DA7], validity: Some(&mask) };
    assert_eq!(render_rows(&tables, &values), texts(&[Some("zhōng"), None, Some("guó")]));
}
