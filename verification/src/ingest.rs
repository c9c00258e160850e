use vstd::prelude::*;

verus! {

/// What the CSV reader yields on these bytes: every record's fields in file
/// order, or nothing when some record is malformed. The result is a function
/// of the bytes alone.
pub uninterp spec fn csv_rows(bytes: Seq<u8>) -> Option<Seq<Seq<Seq<char>>>>;

/// The field views of each row, in order.
pub open spec fn rows_deep_view(rows: Seq<Vec<String>>) -> Seq<Seq<Seq<char>>> {
    rows.map_values(|r: Vec<String>| r@.map_values(|t: String| t@))
}

/// Relies on csv's `Reader` over in-memory bytes, headerless and
/// flexible-width: yields the records' fields, an error on a malformed
/// record.
#[verifier::external_body]
pub fn parse_csv_rows(bytes: &[u8]) -> (r: Option<Vec<Vec<String>>>)
    ensures
        match r {
            Some(rows) => csv_rows(bytes@) == Some(rows_deep_view(rows@)),
            None => csv_rows(bytes@) is None,
        },
{
    let mut rdr = csv::ReaderBuilder::new().has_headers(false).flexible(true).from_reader(bytes);
    let mut rows: Vec<Vec<String>> = Vec::new();
    for rec in rdr.records() {
        match rec {
            Ok(rec) => rows.push(rec.iter().map(|f| f.to_string()).collect()),
            Err(_) => {
                return None;
            },
        }
    }
    Some(rows)
}

} // verus!
