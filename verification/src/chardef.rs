use vstd::prelude::*;
use crate::error::BuildError;

verus! {

/// The character-definition table lindera-core compiles from `char.def`:
/// category names, their flags, and the codepoint-range lookup table. Opaque
/// here; the library routes it between the parser, the unknown-word compiler
/// and the encoder.
#[verifier::external_type_specification]
#[verifier::external_body]
pub struct ExCharacterDefinitions(
    lindera_core::dictionary::character_definition::CharacterDefinitions,
);

/// Whether lindera-core's character-definition parser accepts this table text
/// and bincode can encode the result: a function of the text alone.
pub uninterp spec fn chardef_ok(content: Seq<char>) -> bool;

/// The serialized character-definition table compiled from this text.
pub uninterp spec fn chardef_bytes_of(content: Seq<char>) -> Seq<u8>;

/// The category names, in id order, of the table compiled from this text.
pub uninterp spec fn chardef_categories_of(content: Seq<char>) -> Seq<Seq<char>>;

/// Whether lindera-core's `parse_unk` accepts this fallback-table text
/// against these category names, each row holding exactly `fields_num`
/// fields, and bincode can encode the result.
pub uninterp spec fn unk_ok(categories: Seq<Seq<char>>, content: Seq<char>, fields_num: int) -> bool;

/// The serialized unknown-word table compiled from these category names and
/// this text.
pub uninterp spec fn unk_bytes_of(
    categories: Seq<Seq<char>>,
    content: Seq<char>,
    fields_num: int,
) -> Seq<u8>;

/// Relies on lindera-core's `CharacterDefinitionsBuilder` (`default`,
/// `parse`, `build`) and bincode's `serialize`: the parsed table and its
/// encoding are deterministic functions of the table text alone; a refused
/// line or encoding yields nothing.
#[verifier::external_body]
fn chardef_compile(content: &str) -> (r: Option<
    (lindera_core::dictionary::character_definition::CharacterDefinitions, Vec<u8>),
>)
    ensures
        r is Some <==> chardef_ok(content@),
        r is Some ==> r.unwrap().1@ == chardef_bytes_of(content@),
{
    let mut builder =
        lindera_core::dictionary::character_definition::CharacterDefinitionsBuilder::default();
    if builder.parse(content).is_err() {
        return None;
    }
    let chardef = builder.build();
    match bincode::serialize(&chardef) {
        Ok(bytes) => Some((chardef, bytes)),
        Err(_) => None,
    }
}

/// A parsed character-definition table, carrying as ghost state the text it
/// was compiled from, so that later contracts can name its categories. Only
/// `build_chardef` constructs one, which ties the table to its text.
pub struct CharDefs {
    table: lindera_core::dictionary::character_definition::CharacterDefinitions,
    src: Ghost<Seq<char>>,
}

impl CharDefs {
    /// The table text this value was compiled from.
    pub closed spec fn src(self) -> Seq<char> {
        self.src@
    }

    /// The table was compiled from its recorded text.
    pub closed spec fn wf(self) -> bool {
        chardef_ok(self.src@)
    }
}

/// Relies on `CharacterDefinitions::categories`: the category names of the
/// parsed table, in id order — a function of the text the table was compiled
/// from.
#[verifier::external_body]
fn chardef_categories_raw(chardef: &CharDefs) -> (r: Vec<String>)
    requires
        chardef.wf(),
    ensures
        r@.map_values(|c: String| c@) == chardef_categories_of(chardef.src()),
{
    chardef.table.categories().to_vec()
}

/// Relies on lindera-core's `parse_unk` and bincode's `serialize`: the
/// compiled fallback table and its encoding are functions of the category
/// names, the text and the expected field count alone; a refused row or
/// encoding yields nothing. The parser reads the four leading fields of an
/// accepted row before any further check, so the expected field count must
/// cover them.
#[verifier::external_body]
fn unk_compile(categories: &Vec<String>, content: &str, fields_num: usize) -> (r: Option<Vec<u8>>)
    requires
        fields_num >= 4,
    ensures
        r is Some <==> unk_ok(
            categories@.map_values(|c: String| c@),
            content@,
            fields_num as int,
        ),
        r is Some ==> r.unwrap()@ == unk_bytes_of(
            categories@.map_values(|c: String| c@),
            content@,
            fields_num as int,
        ),
{
    match lindera_core::dictionary::unknown_dictionary::parse_unk(
        categories.as_slice(),
        content,
        fields_num,
    ) {
        Ok(unk) => bincode::serialize(&unk).ok(),
        Err(_) => None,
    }
}

/// What a finished character-definition build guarantees.
pub open spec fn build_chardef_post(content: Seq<char>, r: Result<
    (CharDefs, Vec<u8>),
    BuildError,
>) -> bool {
    match r {
        Ok((cd, bytes)) => {
            &&& chardef_ok(content)
            &&& cd.wf()
            &&& cd.src() == content
            &&& bytes@ == chardef_bytes_of(content)
        },
        Err(e) => {
            &&& e == BuildError::Content
            &&& !chardef_ok(content)
        },
    }
}

/// Compiles a character-definition table: parses the category and range
/// lines, then serializes the table for the `char_def` artifact. The parsed
/// table is returned too, for the unknown-word compiler to resolve category
/// names against. Fails with a content error exactly when the parser or the
/// encoder refuses the text.
pub fn build_chardef(content: &str) -> (r: Result<(CharDefs, Vec<u8>), BuildError>)
    ensures
        build_chardef_post(content@, r),
{
    match chardef_compile(content) {
        Some((table, bytes)) => Ok((CharDefs { table, src: Ghost(content@) }, bytes)),
        None => Err(BuildError::Content),
    }
}

/// The field count of one unknown-word table row.
pub const UNK_FIELDS_NUM: usize = 11;

/// What a finished unknown-word build guarantees, over the source text the
/// character definitions were compiled from.
pub open spec fn build_unk_post(src: Seq<char>, content: Seq<char>, r: Result<
    Vec<u8>,
    BuildError,
>) -> bool {
    match r {
        Ok(bytes) => {
            &&& unk_ok(chardef_categories_of(src), content, UNK_FIELDS_NUM as int)
            &&& bytes@ == unk_bytes_of(chardef_categories_of(src), content, UNK_FIELDS_NUM as int)
        },
        Err(e) => {
            &&& e == BuildError::Content
            &&& !unk_ok(chardef_categories_of(src), content, UNK_FIELDS_NUM as int)
        },
    }
}

/// Compiles an unknown-word table against the parsed character definitions:
/// parses the per-category fallback rows, then serializes the table for the
/// `unk` artifact. Fails with a content error exactly when the parser or the
/// encoder refuses the rows.
pub fn build_unk(chardef: &CharDefs, content: &str) -> (r: Result<Vec<u8>, BuildError>)
    requires
        chardef.wf(),
    ensures
        build_unk_post(chardef.src(), content@, r),
{
    let categories = chardef_categories_raw(chardef);
    match unk_compile(&categories, content, UNK_FIELDS_NUM) {
        Some(bytes) => Ok(bytes),
        None => Err(BuildError::Content),
    }
}

} // verus!
