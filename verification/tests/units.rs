use jpreprocess_dictionary_builder::ctype::{Keiyoushi, One, SaIrregular};
use jpreprocess_dictionary_builder::detail::resize_detail_fields;
use jpreprocess_dictionary_builder::error::BuildError;
use jpreprocess_dictionary_builder::matrix::{build_cost_matrix, tokenize_line};
use jpreprocess_dictionary_builder::parse::{parse_i16, parse_u16, trim};
use jpreprocess_dictionary_builder::sort::sort_rows;
use jpreprocess_dictionary_builder::text::normalize_field;
use jpreprocess_dictionary_builder::word_entry::WordEntry;

fn read_i16_le(b: &[u8], at: usize) -> i16 {
    i16::from_le_bytes([b[at], b[at + 1]])
}

#[test]
fn word_entry_round_trip() {
    // Serializing then deserializing yields the identical triple.
    let e = WordEntry { word_id: 12345, is_system: true, word_cost: -17, cost_id: 1411 };
    let mut buf = Vec::new();
    e.serialize(&mut buf);
    assert_eq!(buf.len(), 8);
    let e2 = WordEntry::deserialize(&buf, 0, true);
    assert_eq!(e, e2);
    let neg = WordEntry { word_id: 0, is_system: false, word_cost: i16::MIN, cost_id: u16::MAX };
    let mut buf2 = Vec::new();
    neg.serialize(&mut buf2);
    assert_eq!(WordEntry::deserialize(&buf2, 0, false), neg);
}

#[test]
fn cost_matrix_cells() {
    // Header, explicit triples at their cells, the sentinel elsewhere.
    let bytes = build_cost_matrix("2 2\n0 0 10\n0 1 20\n1 1 -5\n").unwrap();
    assert_eq!(bytes.len(), 12);
    assert_eq!(read_i16_le(&bytes, 0), 2);
    assert_eq!(read_i16_le(&bytes, 2), 2);
    assert_eq!(read_i16_le(&bytes, 4), 10); // (f=0, b=0)
    assert_eq!(read_i16_le(&bytes, 6), 20); // (f=0, b=1)
    assert_eq!(read_i16_le(&bytes, 8), i16::MAX); // (f=1, b=0) unset
    assert_eq!(read_i16_le(&bytes, 10), -5); // (f=1, b=1)
}

#[test]
fn cost_matrix_later_line_wins_and_blanks_skipped() {
    let bytes = build_cost_matrix("\n\n1 1\n0 0 7\n\n0 0 9\n").unwrap();
    assert_eq!(bytes.len(), 6);
    assert_eq!(read_i16_le(&bytes, 4), 9);
}

#[test]
fn cost_matrix_rejects_bad_input() {
    assert!(build_cost_matrix("").is_err());
    assert_eq!(build_cost_matrix("2 2\n5 0 10\n").unwrap_err(), BuildError::Content);
    assert_eq!(build_cost_matrix("2 2\n0 0\n").unwrap_err(), BuildError::Content);
    assert_eq!(build_cost_matrix("2 2\n0 0 x\n").unwrap_err(), BuildError::Parse);
    assert_eq!(build_cost_matrix("2\n").unwrap_err(), BuildError::Content);
}

#[test]
fn tokenizer_splits_on_blanks() {
    let toks = tokenize_line("  12 \t 34\r");
    assert_eq!(toks, vec!["12".to_string(), "34".to_string()]);
    assert_eq!(tokenize_line(""), Vec::<String>::new());
}

#[test]
fn numeric_fields_parse_exactly() {
    assert_eq!(parse_i16("-10000"), Some(-10000));
    assert_eq!(parse_i16("+32767"), Some(32767));
    assert_eq!(parse_i16("-32768"), Some(-32768));
    assert_eq!(parse_i16("32768"), None);
    assert_eq!(parse_i16("-32769"), None);
    assert_eq!(parse_i16(""), None);
    assert_eq!(parse_i16("12a"), None);
    assert_eq!(parse_u16("65535"), Some(65535));
    assert_eq!(parse_u16("65536"), None);
    assert_eq!(parse_u16("-1"), None);
    assert_eq!(trim(" \t1316 \r\n"), "1316");
}

#[test]
fn normalization_maps_two_codepoints() {
    assert_eq!(normalize_field("a\u{2015}b"), "a\u{2014}b");
    assert_eq!(normalize_field("x\u{ff5e}y"), "x\u{301c}y");
    assert_eq!(normalize_field("plain"), "plain");
    assert_eq!(normalize_field("\u{2014}\u{301c}"), "\u{2014}\u{301c}");
}

#[test]
fn sort_is_stable_by_surface_bytes() {
    let rows: Vec<Vec<String>> = vec![
        vec!["b".to_string(), "1".to_string()],
        vec!["a".to_string(), "2".to_string()],
        vec!["b".to_string(), "3".to_string()],
        vec!["a".to_string(), "4".to_string()],
    ];
    let sorted = sort_rows(rows);
    let key: Vec<(String, String)> =
        sorted.into_iter().map(|r| (r[0].clone(), r[1].clone())).collect();
    assert_eq!(
        key,
        vec![
            ("a".to_string(), "2".to_string()),
            ("a".to_string(), "4".to_string()),
            ("b".to_string(), "1".to_string()),
            ("b".to_string(), "3".to_string()),
        ]
    );
}

#[test]
fn keiyoushi_tokens() {
    assert_eq!(Keiyoushi::from_str("アウオ段"), Ok(Keiyoushi::Auo));
    assert_eq!(Keiyoushi::from_str("イ段"), Ok(Keiyoushi::I));
    assert_eq!(Keiyoushi::from_str("他"), Err(BuildError::Parse));
    assert_eq!(Keiyoushi::Auo.as_str(), "アウオ段");
    assert_eq!(Keiyoushi::I.as_str(), "イ段");
}

#[test]
fn one_tokens() {
    assert_eq!(One::from_str("病メル"), Ok(One::Yameru));
    assert_eq!(One::from_str("クレル"), Ok(One::Kureru));
    assert_eq!(One::from_str("得ル"), Ok(One::Eru));
    assert_eq!(One::from_str("ル"), Ok(One::Ru));
    assert_eq!(One::from_str(""), Ok(One::Empty));
    assert_eq!(One::from_str("他"), Err(BuildError::Parse));
    assert_eq!(One::Yameru.as_str(), "病メル");
    assert_eq!(One::Empty.as_str(), "");
}

#[test]
fn sa_irregular_tokens() {
    assert_eq!(SaIrregular::from_str("スル"), Ok(SaIrregular::Alone));
    assert_eq!(SaIrregular::from_str("\u{ff0d}スル"), Ok(SaIrregular::ConjugationSuru));
    assert_eq!(SaIrregular::from_str("\u{2212}スル"), Ok(SaIrregular::ConjugationSuru));
    assert_eq!(SaIrregular::from_str("\u{ff0d}ズル"), Ok(SaIrregular::ConjugationZuru));
    assert_eq!(SaIrregular::from_str("\u{2212}ズル"), Ok(SaIrregular::ConjugationZuru));
    assert_eq!(SaIrregular::from_str("ズル"), Err(BuildError::Parse));
    assert_eq!(SaIrregular::ConjugationSuru.as_str(), "\u{2212}スル");
    assert_eq!(SaIrregular::ConjugationZuru.as_str(), "\u{2212}ズル");
    assert_eq!(SaIrregular::Alone.as_str(), "スル");
}

#[test]
fn detail_columns_pad_to_thirteen() {
    let row: Vec<String> = vec!["s", "1", "2", "3", "a", "b"].iter().map(|f| f.to_string()).collect();
    let padded = resize_detail_fields(&row);
    assert_eq!(padded.len(), 13);
    assert_eq!(padded[0], "a");
    assert_eq!(padded[1], "b");
    assert!(padded[2..].iter().all(|f| f.is_empty()));
    let long: Vec<String> = (0..20).map(|i| format!("c{}", i)).collect();
    let cut = resize_detail_fields(&long);
    assert_eq!(cut.len(), 13);
    assert_eq!(cut[0], "c4");
    assert_eq!(cut[12], "c16");
}

#[test]
fn error_labels() {
    assert_eq!(BuildError::Content.label(), "content error");
    assert_eq!(BuildError::Parse.label(), "parse error");
    assert_eq!(BuildError::Serialize.label(), "serialize error");
    assert_eq!(BuildError::Build.label(), "build error");
}
