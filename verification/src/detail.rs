use vstd::prelude::*;
use vstd::string::StringExecFns;

verus! {

/// What bincode's `serialize` returns for a list of string fields: a
/// deterministic, self-delimiting encoding of the field values.
pub uninterp spec fn detail_encoding(fields: Seq<Seq<char>>) -> Seq<u8>;

/// The character sequences of the fields, in order.
pub open spec fn fields_view(fs: Seq<String>) -> Seq<Seq<char>> {
    fs.map_values(|f: String| f@)
}

/// The detail columns of a row: every field from index 4 on.
pub open spec fn spec_detail_view(row: Vec<String>) -> Seq<Seq<char>> {
    fields_view(row@.skip(4))
}

/// The detail columns padded (with empty fields) or cut to the full thirteen
/// columns of the detailed schema.
pub open spec fn spec_resize13(fs: Seq<Seq<char>>) -> Seq<Seq<char>> {
    Seq::new(
        13,
        |i: int|
            if i < fs.len() {
                fs[i]
            } else {
                Seq::empty()
            },
    )
}

/// Relies on bincode's `serialize` of a `Vec<String>`: the bytes are a
/// function of the field values alone, and serializing plain owned strings
/// into a fresh vector cannot fail.
#[verifier::external_body]
pub fn encode_fields(fields: &Vec<String>) -> (r: Vec<u8>)
    ensures
        r@ == detail_encoding(fields_view(fields@)),
{
    bincode::serialize(fields).unwrap()
}

/// Relies on bincode's `deserialize` of a `Vec<String>`: reading bytes that
/// `serialize` produced, trailing data ignored, yields the serialized fields
/// back.
#[verifier::external_body]
pub fn decode_fields(bytes: &[u8]) -> (r: Option<Vec<String>>)
    ensures
        forall|fs: Seq<Seq<char>>, rest: Seq<u8>|
            bytes@ == #[trigger] (detail_encoding(fs) + rest) ==> r is Some && fields_view(
                r.unwrap()@,
            ) == fs,
{
    bincode::deserialize(bytes).ok()
}

/// Copies the detail columns (fields 4 and up) out of one row.
pub fn detail_fields(row: &Vec<String>) -> (r: Vec<String>)
    requires
        row@.len() >= 4,
    ensures
        fields_view(r@) == spec_detail_view(*row),
{
    let mut out: Vec<String> = Vec::new();
    let mut i: usize = 4;
    while i < row.len()
        invariant
            4 <= i <= row@.len(),
            out@.len() == i - 4,
            forall|k: int| 0 <= k < out@.len() ==> #[trigger] out@[k]@ == row@[k + 4]@,
        decreases row@.len() - i,
    {
        out.push(row[i].clone());
        i = i + 1;
    }
    proof {
        assert(fields_view(out@) =~= spec_detail_view(*row));
    }
    out
}

/// Pads the detail columns with empty fields, or cuts them, to the thirteen
/// columns of the detailed schema.
pub fn resize_detail_fields(row: &Vec<String>) -> (r: Vec<String>)
    requires
        row@.len() >= 4,
    ensures
        fields_view(r@) == spec_resize13(spec_detail_view(*row)),
{
    let mut out: Vec<String> = Vec::new();
    let mut i: usize = 4;
    while i < row.len() && i < 17
        invariant
            4 <= i <= 17,
            i <= row@.len(),
            out@.len() == i - 4,
            forall|k: int| 0 <= k < out@.len() ==> #[trigger] out@[k]@ == row@[k + 4]@,
        decreases 17 - i,
    {
        out.push(row[i].clone());
        i = i + 1;
    }
    proof {
        let fs = spec_detail_view(*row);
        assert(fs.len() == row@.len() - 4);
        assert forall|k: int| 0 <= k < out@.len() implies #[trigger] out@[k]@ == spec_resize13(
            fs,
        )[k] by {
            assert(out@[k]@ == row@[k + 4]@);
            assert(row@.skip(4)[k] == row@[k + 4]);
            assert(fs[k] == row@.skip(4)[k]@);
        }
    }
    while out.len() < 13
        invariant
            out@.len() <= 13,
            row@.len() >= 4,
            out@.len() >= row@.len() - 4 || out@.len() == 13,
            forall|k: int|
                0 <= k < out@.len() ==> #[trigger] out@[k]@ == spec_resize13(
                    spec_detail_view(*row),
                )[k],
        decreases 13 - out@.len(),
    {
        out.push(String::new());
        proof {
            let fs = spec_detail_view(*row);
            assert(out@.last()@ =~= Seq::<char>::empty());
            assert(out@.len() - 1 >= fs.len());
            assert(spec_resize13(fs)[out@.len() - 1] =~= Seq::<char>::empty());
        }
    }
    proof {
        assert(fields_view(out@) =~= spec_resize13(spec_detail_view(*row)));
    }
    out
}

} // verus!
