use vstd::prelude::*;
use vstd::string::{StrSliceExecFns, StringSliceAdditionalSpecFns};
use crate::order::bytes_le;

verus! {

/// Canonicalization of the two visually ambiguous full-width punctuation
/// codepoints that survive legacy encoding round trips in the source corpora:
/// the horizontal bar becomes the em dash, and the full-width tilde becomes
/// the wave dash. Every other character is kept as it is.
pub open spec fn norm_char(c: char) -> char {
    if c == '\u{2015}' {
        '\u{2014}'
    } else if c == '\u{ff5e}' {
        '\u{301c}'
    } else {
        c
    }
}

/// A field after normalization: every character mapped through `norm_char`.
pub open spec fn norm_chars(s: Seq<char>) -> Seq<char> {
    s.map_values(|c: char| norm_char(c))
}

/// Relies on `String::push`: appends the character to the end of the string.
#[verifier::external_body]
fn push_char(s: &mut String, c: char)
    ensures
        final(s)@ == old(s)@.push(c),
{
    s.push(c);
}

/// Relies on `str`'s `<=`: strings compare lexicographically by their byte
/// values, which for UTF-8 data equals code-point order.
#[verifier::external_body]
pub fn str_le(a: &str, b: &str) -> (r: bool)
    ensures
        r == bytes_le(a.spec_bytes(), b.spec_bytes()),
{
    a <= b
}

/// Relies on `str`'s `==`: strings are equal exactly when their bytes are.
#[verifier::external_body]
pub fn str_eq(a: &str, b: &str) -> (r: bool)
    ensures
        r == (a.spec_bytes() == b.spec_bytes()),
{
    a == b
}

/// Replaces the two ambiguous punctuation codepoints in one field.
pub fn normalize_field(s: &str) -> (r: String)
    ensures
        r@ == norm_chars(s@),
{
    let n = s.unicode_len();
    let mut out = String::new();
    let mut i: usize = 0;
    while i < n
        invariant
            n == s@.len(),
            i <= n,
            out@ =~= norm_chars(s@.subrange(0, i as int)),
        decreases n - i,
    {
        let c = s.get_char(i);
        let m: char = if c == '\u{2015}' {
            '\u{2014}'
        } else if c == '\u{ff5e}' {
            '\u{301c}'
        } else {
            c
        };
        push_char(&mut out, m);
        i = i + 1;
        assert(out@ =~= norm_chars(s@.subrange(0, i as int)));
    }
    proof {
        assert(s@.subrange(0, s@.len() as int) =~= s@);
    }
    out
}

/// Normalizes every field of one row.
pub fn normalize_row(row: &Vec<String>) -> (r: Vec<String>)
    ensures
        r@.len() == row@.len(),
        forall|i: int| 0 <= i < row@.len() ==> r@[i]@ == norm_chars(row@[i]@),
{
    let mut out: Vec<String> = Vec::new();
    let mut i: usize = 0;
    while i < row.len()
        invariant
            i <= row@.len(),
            out@.len() == i,
            forall|k: int| 0 <= k < i ==> out@[k]@ == norm_chars(row@[k]@),
        decreases row@.len() - i,
    {
        out.push(normalize_field(row[i].as_str()));
        i = i + 1;
    }
    out
}

/// Normalizes every field of every row, keeping the row order.
pub fn normalize_rows(rows: &Vec<Vec<String>>) -> (r: Vec<Vec<String>>)
    ensures
        r@.len() == rows@.len(),
        forall|i: int| 0 <= i < rows@.len() ==> #[trigger] r@[i]@.len() == rows@[i]@.len(),
        forall|i: int, k: int|
            0 <= i < rows@.len() && 0 <= k < rows@[i]@.len() ==> #[trigger] r@[i]@[k]@
                == norm_chars(rows@[i]@[k]@),
{
    let mut out: Vec<Vec<String>> = Vec::new();
    let mut i: usize = 0;
    while i < rows.len()
        invariant
            i <= rows@.len(),
            out@.len() == i,
            forall|k: int| 0 <= k < i ==> #[trigger] out@[k]@.len() == rows@[k]@.len(),
            forall|k: int, f: int|
                0 <= k < i && 0 <= f < rows@[k]@.len() ==> #[trigger] out@[k]@[f]@ == norm_chars(
                    rows@[k]@[f]@,
                ),
        decreases rows@.len() - i,
    {
        out.push(normalize_row(&rows[i]));
        i = i + 1;
    }
    out
}

} // verus!
