use jpreprocess_dictionary_builder::builder::{build_dict, IpadicBuilder};
use jpreprocess_dictionary_builder::detail::decode_fields;
use jpreprocess_dictionary_builder::error::BuildError;
use jpreprocess_dictionary_builder::ingest::parse_csv_rows;
use jpreprocess_dictionary_builder::user_dict::build_user_dict;
use jpreprocess_dictionary_builder::word_entry::WordEntry;

fn row(fields: &[&str]) -> Vec<String> {
    fields.iter().map(|f| f.to_string()).collect()
}

fn cat_row(surface: &str, left: &str, right: &str, cost: &str) -> Vec<String> {
    row(&[surface, left, right, cost, "名詞", "一般", "*", "*", "*", "*", surface, "ネコ", "ネコ"])
}

fn dict_err(
    r: Result<jpreprocess_dictionary_builder::builder::DictArtifacts, BuildError>,
) -> BuildError {
    match r {
        Err(e) => e,
        Ok(_) => panic!("expected an error"),
    }
}

fn user_err(
    r: Result<jpreprocess_dictionary_builder::user_dict::UserDictArtifacts, BuildError>,
) -> BuildError {
    match r {
        Err(e) => e,
        Ok(_) => panic!("expected an error"),
    }
}

fn read_u32_le(b: &[u8], at: usize) -> u32 {
    u32::from_le_bytes([b[at], b[at + 1], b[at + 2], b[at + 3]])
}

#[test]
fn two_entries_one_surface() {
    // Two rows sharing the surface 猫: the trie value must decode to
    // start id 0 and group length 2, and the value table must hold the
    // costs 100 and 200 in that order.
    let rows = vec![
        cat_row("猫", "10", "10", "100"),
        cat_row("猫", "20", "20", "200"),
    ];
    let d = build_dict(&rows).unwrap();
    let v = d.lookup("猫").unwrap();
    assert_eq!(v >> 5, 0);
    assert_eq!(v & 31, 2);
    assert_eq!(d.vals_data.len(), 16);
    let e0 = WordEntry::deserialize(&d.vals_data, 0, true);
    let e1 = WordEntry::deserialize(&d.vals_data, 8, true);
    assert_eq!(e0.word_id, 0);
    assert_eq!(e0.word_cost, 100);
    assert_eq!(e0.cost_id, 10);
    assert_eq!(e1.word_id, 1);
    assert_eq!(e1.word_cost, 200);
    assert_eq!(e1.cost_id, 20);
}

#[test]
fn trie_holds_every_surface_with_multiplicity() {
    // Every surface of the input is found, its group length equal to the
    // surface's multiplicity; an absent surface is not found.
    let rows = vec![
        cat_row("犬", "1", "1", "5"),
        cat_row("猫", "2", "2", "6"),
        cat_row("犬", "3", "3", "7"),
        cat_row("鳥", "4", "4", "8"),
    ];
    let d = build_dict(&rows).unwrap();
    let dog = d.lookup("犬").unwrap();
    assert_eq!(dog & 31, 2);
    let cat = d.lookup("猫").unwrap();
    assert_eq!(cat & 31, 1);
    let bird = d.lookup("鳥").unwrap();
    assert_eq!(bird & 31, 1);
    assert_eq!(d.lookup("魚"), None);
    // The groups tile the id space: sorted order is 犬 < 猫 < 鳥.
    assert_eq!(dog >> 5, 0);
    assert_eq!(cat >> 5, 2);
    assert_eq!(bird >> 5, 3);
}

#[test]
fn offsets_monotone_and_slices_decode() {
    // The words offset index is nondecreasing and each slice decodes to the
    // detail columns of its row, in sorted row order.
    let rows = vec![
        cat_row("犬", "1", "1", "5"),
        cat_row("猫", "2", "2", "6"),
    ];
    let d = build_dict(&rows).unwrap();
    assert_eq!(d.words_idx_data.len(), 8);
    let mut offsets: Vec<usize> = (0..2)
        .map(|i| read_u32_le(&d.words_idx_data, 4 * i) as usize)
        .collect();
    offsets.push(d.words_data.len());
    for i in 0..2 {
        assert!(offsets[i] <= offsets[i + 1]);
        let slice = &d.words_data[offsets[i]..offsets[i + 1]];
        let fields = decode_fields(slice).unwrap();
        let expected: Vec<String> = d.rows[i][4..].to_vec();
        assert_eq!(fields, expected);
    }
}

#[test]
fn group_of_thirty_two_rejected() {
    // 32 entries under one surface cannot be packed into the 5-bit length.
    let rows: Vec<Vec<String>> = (0..32).map(|i| cat_row("猫", "1", "1", &i.to_string())).collect();
    assert_eq!(dict_err(build_dict(&rows)), BuildError::Content);
    let rows33: Vec<Vec<String>> = (0..33)
        .map(|i| cat_row("猫", "1", "1", &i.to_string()))
        .collect();
    assert_eq!(dict_err(build_dict(&rows33)), BuildError::Content);
    let rows31: Vec<Vec<String>> = (0..31)
        .map(|i| cat_row("猫", "1", "1", &i.to_string()))
        .collect();
    let d = build_dict(&rows31).unwrap();
    assert_eq!(d.lookup("猫").unwrap() & 31, 31);
}

#[test]
fn build_dict_normalizes_ambiguous_punctuation() {
    // The horizontal bar and full-width tilde are canonicalized in every
    // field before sorting, so the surface is indexed in canonical form.
    let rows = vec![cat_row("a\u{2015}b\u{ff5e}", "1", "1", "5")];
    let d = build_dict(&rows).unwrap();
    assert!(d.lookup("a\u{2014}b\u{301c}").is_some());
    assert_eq!(d.lookup("a\u{2015}b\u{ff5e}"), None);
}

#[test]
fn build_dict_rejects_short_rows_and_bad_numbers() {
    let short = vec![row(&["猫", "10", "10"])];
    assert_eq!(dict_err(build_dict(&short)), BuildError::Content);
    let bad_cost = vec![cat_row("猫", "10", "10", "abc")];
    assert_eq!(dict_err(build_dict(&bad_cost)), BuildError::Parse);
    let bad_id = vec![cat_row("猫", "x", "10", "100")];
    assert_eq!(dict_err(build_dict(&bad_id)), BuildError::Parse);
    let empty_surface = vec![cat_row("", "10", "10", "100")];
    assert_eq!(dict_err(build_dict(&empty_surface)), BuildError::Content);
}

#[test]
fn empty_row_set_is_a_build_error() {
    // The trie construction refuses an empty key set; the build fails rather
    // than writing empty artifacts.
    assert_eq!(dict_err(build_dict(&Vec::new())), BuildError::Build);
    assert_eq!(user_err(build_user_dict(Vec::new())), BuildError::Build);
}

#[test]
fn build_dict_trims_numeric_fields() {
    let rows = vec![cat_row("猫", " 10 ", "10", "\t-200 ")];
    let d = build_dict(&rows).unwrap();
    let e = WordEntry::deserialize(&d.vals_data, 0, true);
    assert_eq!(e.word_cost, -200);
    assert_eq!(e.cost_id, 10);
}

#[test]
fn simplified_user_row_gets_defaults() {
    // The simplified user row: fixed preferred cost, context-free class, and
    // the nine-column detail record with the POS label and starred columns.
    let rows = vec![row(&["東京", "固有名詞", "とうきょう"])];
    let d = build_user_dict(rows).unwrap();
    let e = WordEntry::deserialize(&d.vals_data, 0, false);
    assert_eq!(e.word_cost, -10000);
    assert_eq!(e.cost_id, 0);
    assert!(!e.is_system);
    let fields = decode_fields(&d.words_data).unwrap();
    assert_eq!(
        fields,
        vec!["固有名詞", "*", "*", "*", "*", "*", "東京", "とうきょう", "*"]
            .into_iter()
            .map(|s| s.to_string())
            .collect::<Vec<String>>()
    );
    assert_eq!(d.lookup("東京").unwrap() & 31, 1);
}

#[test]
fn user_rows_between_schemas_rejected() {
    // Field counts strictly between 3 and 13 are an ambiguous schema.
    for n in 4..13 {
        let fields: Vec<String> = (0..n).map(|i| format!("f{}", i)).collect();
        let mut r0 = vec!["東京".to_string()];
        r0.extend(fields.into_iter().skip(1));
        let err = user_err(build_user_dict(vec![r0]));
        assert_eq!(err, BuildError::Content);
    }
    // Exactly 13 fields follow the detailed schema.
    let detailed = cat_row("東京", "5", "5", "2000");
    let d = build_user_dict(vec![detailed]).unwrap();
    let e = WordEntry::deserialize(&d.vals_data, 0, false);
    assert_eq!(e.word_cost, 2000);
    assert_eq!(e.cost_id, 5);
    // User numeric fields are read as written: surrounding blanks are not
    // stripped, unlike in the main dictionary.
    let padded = cat_row("東京", "5", "5", " 2000");
    assert_eq!(user_err(build_user_dict(vec![padded])), BuildError::Parse);
}

#[test]
fn builder_entry_points_delegate() {
    let b = IpadicBuilder::new();
    let rows = vec![cat_row("猫", "1", "1", "10")];
    assert!(b.build_dict(&rows).is_ok());
    let b2 = IpadicBuilder::default();
    assert!(b2.build_user_dict(vec![row(&["東京", "固有名詞", "とうきょう"])]).is_ok());
}

#[test]
fn csv_rows_parse_fields() {
    let rows = parse_csv_rows("\u{732b},10,10,100\n\u{72ac},1,1,5\n".as_bytes()).unwrap();
    assert_eq!(rows.len(), 2);
    assert_eq!(rows[0], vec!["\u{732b}", "10", "10", "100"]);
    assert_eq!(rows[1], vec!["\u{72ac}", "1", "1", "5"]);
    let quoted = parse_csv_rows("\"a,b\",2\n".as_bytes()).unwrap();
    assert_eq!(quoted[0], vec!["a,b", "2"]);
}

#[test]
fn user_dictionary_file_round_trips() {
    // The packaged user-dictionary file deserializes back to the artifacts,
    // tagged non-system.
    let rows = vec![row(&["東京", "固有名詞", "とうきょう"])];
    let d = build_user_dict(rows).unwrap();
    let encoded = d.encode();
    let loaded = lindera_core::dictionary::UserDictionary::load(&encoded).unwrap();
    assert!(!loaded.dict.is_system);
    assert_eq!(loaded.dict.vals_data, d.vals_data);
    assert_eq!(loaded.words_idx_data, d.words_idx_data);
    assert_eq!(loaded.words_data, d.words_data);
}

#[test]
fn chardef_and_unk_compile() {
    let b = IpadicBuilder::new();
    let chardef_text = "DEFAULT 0 1 0\nALPHA 1 1 0\n0x0041..0x005A ALPHA\n";
    let (chardef, chardef_bytes) = b.build_chardef(chardef_text).unwrap();
    assert!(!chardef_bytes.is_empty());
    let unk_text = "DEFAULT,0,0,0,記号,一般,*,*,*,*,*\nALPHA,1,1,0,名詞,一般,*,*,*,*,*\n";
    let unk_bytes = b.build_unk(&chardef, unk_text).unwrap();
    assert!(!unk_bytes.is_empty());
}
