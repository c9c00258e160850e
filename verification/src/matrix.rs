use vstd::prelude::*;
use vstd::bytes::{spec_u16_to_le_bytes, u16_to_le_bytes};
use vstd::string::StrSliceExecFns;
use crate::error::BuildError;
use crate::parse::{is_ws, spec_parse_i16, spec_parse_u16, parse_i16, parse_u16};
use crate::word_entry::push_all;

verus! {

/// The text split at newline characters; a trailing newline yields a final
/// empty line, which later stages skip.
pub open spec fn line_split(s: Seq<char>) -> Seq<Seq<char>>
    decreases s.len(),
{
    if s.len() == 0 {
        seq![Seq::empty()]
    } else if s[0] == '\n' {
        seq![Seq::<char>::empty()] + line_split(s.drop_first())
    } else {
        let rest = line_split(s.drop_first());
        seq![seq![s[0]] + rest[0]] + rest.skip(1)
    }
}

/// One line split at blanks into its maximal non-blank runs.
pub open spec fn tok_split(s: Seq<char>) -> Seq<Seq<char>>
    decreases s.len(),
{
    if s.len() == 0 {
        Seq::empty()
    } else if is_ws(s[0]) {
        tok_split(s.drop_first())
    } else if s.len() >= 2 && !is_ws(s[1]) {
        let rest = tok_split(s.drop_first());
        seq![seq![s[0]] + rest[0]] + rest.skip(1)
    } else {
        seq![seq![s[0]]] + tok_split(s.drop_first())
    }
}

/// There is always at least one line.
pub proof fn lemma_line_split_nonempty(s: Seq<char>)
    ensures
        line_split(s).len() >= 1,
    decreases s.len(),
{
    if s.len() > 0 && s[0] != '\n' {
        lemma_line_split_nonempty(s.drop_first());
    }
}

/// Consuming one whole line: the text up to the first newline is the first
/// line, and the rest of the split follows after the newline.
pub proof fn lemma_line_split_step(s: Seq<char>, p: int)
    requires
        0 <= p < s.len(),
        s[p] == '\n',
        forall|t: int| 0 <= t < p ==> s[t] != '\n',
    ensures
        line_split(s) == seq![s.take(p)] + line_split(s.skip(p + 1)),
    decreases p,
{
    lemma_line_split_nonempty(s.skip(p + 1));
    if p == 0 {
        assert(s.drop_first() =~= s.skip(1));
        assert(s.take(0) =~= Seq::<char>::empty());
        assert(line_split(s) =~~= seq![s.take(0)] + line_split(s.skip(1)));
    } else {
        let d = s.drop_first();
        assert(d[p - 1] == '\n');
        lemma_line_split_step(d, p - 1);
        assert(d.take(p - 1) =~= s.take(p).drop_first());
        assert(d.skip(p) =~= s.skip(p + 1));
        let rest = line_split(d);
        assert(rest == seq![d.take(p - 1)] + line_split(d.skip(p)));
        assert(rest[0] == d.take(p - 1));
        assert(seq![s[0]] + rest[0] =~= s.take(p));
        assert(rest[0] == d.take(p - 1));
        assert(rest.skip(1) =~= line_split(s.skip(p + 1)));
        assert(line_split(s) =~~= seq![s.take(p)] + line_split(s.skip(p + 1)));
    }
}

/// A text with no newline is one line.
pub proof fn lemma_line_split_last(s: Seq<char>)
    requires
        forall|t: int| 0 <= t < s.len() ==> s[t] != '\n',
    ensures
        line_split(s) == seq![s],
    decreases s.len(),
{
    if s.len() > 0 {
        lemma_line_split_last(s.drop_first());
        let rest = line_split(s.drop_first());
        assert(rest[0] == s.drop_first());
        assert(seq![s[0]] + rest[0] =~= s);
        assert(rest.skip(1) =~= Seq::<Seq<char>>::empty());
        assert(line_split(s) =~~= seq![s]);
    } else {
        assert(s =~= Seq::<char>::empty());
        assert(line_split(s) =~~= seq![s]);
    }
}

/// Leading blanks carry no token.
pub proof fn lemma_tok_split_ws(s: Seq<char>, i: int)
    requires
        0 <= i <= s.len(),
        forall|t: int| 0 <= t < i ==> is_ws(s[t]),
    ensures
        tok_split(s) == tok_split(s.skip(i)),
    decreases i,
{
    if i > 0 {
        assert(s.skip(0) =~= s);
        assert(is_ws(s[0]));
        assert(s.drop_first() =~= s.skip(1));
        lemma_tok_split_ws(s.drop_first(), i - 1);
        assert(s.drop_first().skip(i - 1) =~= s.skip(i));
    } else {
        assert(s.skip(0) =~= s);
    }
}

/// Consuming one whole token: a maximal non-blank run is the first token, and
/// the rest of the split follows after it.
pub proof fn lemma_tok_split_step(s: Seq<char>, j: int)
    requires
        0 < j <= s.len(),
        forall|t: int| 0 <= t < j ==> !is_ws(s[t]),
        j == s.len() || is_ws(s[j]),
    ensures
        tok_split(s) == seq![s.take(j)] + tok_split(s.skip(j)),
    decreases j,
{
    if j == 1 {
        if s.len() == 1 {
            assert(s.take(1) =~= s);
            assert(s =~= seq![s[0]]);
            assert(s.skip(1) =~= Seq::<char>::empty());
            assert(tok_split(s) =~~= seq![s.take(1)] + tok_split(s.skip(1)));
        } else {
            assert(is_ws(s[1]));
            assert(s.take(1) =~= seq![s[0]]);
            assert(s.drop_first() =~= s.skip(1));
            assert(tok_split(s) =~~= seq![s.take(1)] + tok_split(s.skip(1)));
        }
    } else {
        let d = s.drop_first();
        assert(!is_ws(s[1]));
        lemma_tok_split_step(d, j - 1);
        let rest = tok_split(d);
        assert(rest == seq![d.take(j - 1)] + tok_split(d.skip(j - 1)));
        assert(rest[0] == d.take(j - 1));
        assert(seq![s[0]] + rest[0] =~= s.take(j));
        assert(d.skip(j - 1) =~= s.skip(j));
        assert(rest.skip(1) =~= tok_split(s.skip(j)));
        assert(tok_split(s) =~~= seq![s.take(j)] + tok_split(s.skip(j)));
    }
}

/// Whether the character at `i` is a blank.
fn blank_at(s: &str, i: usize) -> (r: bool)
    requires
        i < s@.len(),
    ensures
        r == is_ws(s@[i as int]),
{
    let c = s.get_char(i);
    c == ' ' || c == '\t' || c == '\r' || c == '\n'
}

/// Whether the character at `i` is a newline.
fn nl_at(s: &str, i: usize) -> (r: bool)
    requires
        i < s@.len(),
    ensures
        r == (s@[i as int] == '\n'),
{
    s.get_char(i) == '\n'
}

/// Splits one line at blanks into its tokens.
pub fn tokenize_line(line: &str) -> (r: Vec<String>)
    ensures
        r@.map_values(|t: String| t@) == tok_split(line@),
{
    let n = line.unicode_len();
    let mut toks: Vec<String> = Vec::new();
    let mut i: usize = 0;
    proof {
        assert(line@.skip(0) =~= line@);
    }
    while i < n
        invariant
            n == line@.len(),
            i <= n,
            tok_split(line@) == toks@.map_values(|t: String| t@) + tok_split(
                line@.skip(i as int),
            ),
        decreases n - i,
    {
        if blank_at(line, i) {
            proof {
                let rem = line@.skip(i as int);
                assert(rem[0] == line@[i as int]);
                lemma_tok_split_ws(rem, 1);
                assert(rem.skip(1) =~= line@.skip(i + 1));
            }
            i = i + 1;
        } else {
            let start = i;
            let mut j = i + 1;
            while j < n && !blank_at(line, j)
                invariant
                    n == line@.len(),
                    start < j <= n,
                    forall|t: int| start <= t < j ==> !is_ws(#[trigger] line@[t]),
                decreases n - j,
            {
                j = j + 1;
            }
            let tok = line.substring_char(start, j);
            toks.push(tok.to_owned());
            proof {
                let rem = line@.skip(start as int);
                assert(forall|t: int|
                    0 <= t < j - start ==> rem[t] == line@[t + start] && !is_ws(rem[t]));
                assert(j - start == rem.len() || is_ws(rem[j - start]));
                lemma_tok_split_step(rem, j - start);
                assert(rem.take(j - start) =~= tok@);
                assert(rem.skip(j - start) =~= line@.skip(j as int));
                assert(toks@.map_values(|t: String| t@) =~~= toks@.map_values(
                    |t: String| t@,
                ).drop_last().push(tok@));
                assert(tok_split(line@) =~~= toks@.map_values(|t: String| t@) + tok_split(
                    line@.skip(j as int),
                ));
            }
            i = j;
        }
    }
    proof {
        assert(line@.skip(n as int) =~= Seq::<char>::empty());
        assert(tok_split(line@) =~~= toks@.map_values(|t: String| t@));
    }
    toks
}

/// Splits the whole table into lines, each split into its tokens.
pub fn tokenize_matrix(text: &str) -> (r: Vec<Vec<String>>)
    ensures
        r@.map_values(|l: Vec<String>| l@.map_values(|t: String| t@)) == line_split(
            text@,
        ).map_values(|l: Seq<char>| tok_split(l)),
{
    let n = text.unicode_len();
    let mut lines: Vec<Vec<String>> = Vec::new();
    let mut i: usize = 0;
    proof {
        assert(text@.skip(0) =~= text@);
    }
    while i < n
        invariant
            n == text@.len(),
            i <= n,
            line_split(text@).map_values(|l: Seq<char>| tok_split(l)) == lines@.map_values(
                |l: Vec<String>| l@.map_values(|t: String| t@),
            ) + line_split(text@.skip(i as int)).map_values(|l: Seq<char>| tok_split(l)),
        decreases n - i,
    {
        let start = i;
        let mut j = i;
        while j < n && !nl_at(text, j)
            invariant
                n == text@.len(),
                start <= j <= n,
                forall|t: int| start <= t < j ==> #[trigger] text@[t] != '\n',
            decreases n - j,
        {
            j = j + 1;
        }
        let line = text.substring_char(start, j);
        let toks = tokenize_line(line);
        lines.push(toks);
        proof {
            let rem = text@.skip(start as int);
            assert(forall|t: int|
                0 <= t < j - start ==> rem[t] == text@[t + start] && rem[t] != '\n');
            assert(rem.take(j - start) =~= line@);
            let lm = |l: Seq<char>| tok_split(l);
            let vm = |l: Vec<String>| l@.map_values(|t: String| t@);
            if j < n {
                assert(rem[j - start] == '\n');
                lemma_line_split_step(rem, j - start);
                assert(rem.skip(j - start + 1) =~= text@.skip(j + 1));
                assert(line_split(rem).map_values(lm) =~~= seq![tok_split(line@)] + line_split(
                    text@.skip(j + 1),
                ).map_values(lm));
            } else {
                lemma_line_split_last(rem);
                assert(line_split(rem).map_values(lm) =~~= seq![tok_split(line@)]);
                assert(text@.skip(n as int) =~= Seq::<char>::empty());
            }
            assert(lines@.map_values(vm) =~~= lines@.map_values(vm).drop_last().push(
                tok_split(line@),
            ));
            if j < n {
                assert(line_split(text@).map_values(lm) =~~= lines@.map_values(vm) + line_split(
                    text@.skip(j + 1),
                ).map_values(lm));
            } else {
                assert(line_split(text@).map_values(lm) =~~= lines@.map_values(vm)
                    + Seq::<Seq<Seq<char>>>::empty());
            }
        }
        if j < n {
            i = j + 1;
        } else {
            i = n;
            proof {
                assert(line_split(text@).map_values(|l: Seq<char>| tok_split(l))
                    =~~= lines@.map_values(|l: Vec<String>| l@.map_values(|t: String| t@))
                    + line_split(text@.skip(n as int)).map_values(
                    |l: Seq<char>| tok_split(l),
                ).skip(1));
            }
            proof {
                let em = text@.skip(n as int);
                assert(em =~= Seq::<char>::empty());
            }
            return lines;
        }
    }
    proof {
        let em = text@.skip(n as int);
        assert(em =~= Seq::<char>::empty());
        assert(line_split(em) == seq![Seq::<char>::empty()]);
        assert(tok_split(Seq::<char>::empty()) =~= Seq::<Seq<char>>::empty());
    }
    lines.push(Vec::new());
    proof {
        let lm = |l: Seq<char>| tok_split(l);
        let vm = |l: Vec<String>| l@.map_values(|t: String| t@);
        assert(line_split(text@.skip(i as int)).map_values(lm) =~~= seq![
            Seq::<Seq<char>>::empty(),
        ]);
        assert(lines@.map_values(vm) =~~= lines@.map_values(vm).drop_last().push(
            Seq::<Seq<char>>::empty(),
        ));
        assert(line_split(text@).map_values(lm) =~~= lines@.map_values(vm));
    }
    lines
}

/// The value of cell `(f, b)` after all explicit triples are applied, later
/// lines overwriting earlier ones; a pair no triple names keeps the sentinel
/// maximum, "no observed transition".
pub open spec fn spec_cell_value(triples: Seq<(u16, u16, i16)>, f: int, b: int) -> i16
    decreases triples.len(),
{
    if triples.len() == 0 {
        i16::MAX
    } else if triples.last().0 == f && triples.last().1 == b {
        triples.last().2
    } else {
        spec_cell_value(triples.drop_last(), f, b)
    }
}

/// Compiles the dense cost table: `2 + forward_size * backward_size` cells,
/// cell 0 the forward size, cell 1 the backward size, and for each pair
/// `(f, b)` the cell `2 + b + f * backward_size` holding the cost of the last
/// triple naming that pair, or the sentinel maximum when none does. Fails
/// with a content error exactly when some triple's ids lie outside the
/// declared dimensions.
pub fn compile_cost_cells(fwd: u16, bwd: u16, triples: &Vec<(u16, u16, i16)>) -> (r: Result<
    Vec<i16>,
    BuildError,
>)
    requires
        fwd <= 0x7fff,
        bwd <= 0x7fff,
    ensures
        match r {
            Ok(cells) => {
                &&& cells@.len() == 2 + fwd * bwd
                &&& cells@[0] == fwd as i16
                &&& cells@[1] == bwd as i16
                &&& forall|f: int, b: int|
                    0 <= f < fwd && 0 <= b < bwd ==> cells@[2 + b + f * (bwd as int)]
                        == #[trigger] spec_cell_value(triples@, f, b)
                &&& forall|t: int|
                    0 <= t < triples@.len() ==> (#[trigger] triples@[t]).0 < fwd && triples@[t].1
                        < bwd
            },
            Err(e) => {
                &&& e == BuildError::Content
                &&& exists|t: int|
                    0 <= t < triples@.len() && ((#[trigger] triples@[t]).0 >= fwd || triples@[t].1
                        >= bwd)
            },
        },
{
    proof {
        assert((fwd as int) * (bwd as int) < 0x4000_0000) by (nonlinear_arith)
            requires
                fwd <= 0x7fff,
                bwd <= 0x7fff,
        {}
    }
    let size: usize = (fwd as usize) * (bwd as usize);
    let mut cells: Vec<i16> = Vec::new();
    cells.push(fwd as i16);
    cells.push(bwd as i16);
    let mut z: usize = 0;
    while z < size
        invariant
            size == fwd * bwd,
            z <= size,
            cells@.len() == 2 + z,
            cells@[0] == fwd as i16,
            cells@[1] == bwd as i16,
            forall|c: int| 2 <= c < cells@.len() ==> #[trigger] cells@[c] == i16::MAX,
        decreases size - z,
    {
        cells.push(i16::MAX);
        z = z + 1;
    }
    proof {
        assert forall|f: int, b: int| 0 <= f < fwd && 0 <= b < bwd implies cells@[2 + b + f * (
        bwd as int)] == #[trigger] spec_cell_value(triples@.subrange(0, 0), f, b) by {
            assert(0 <= b + f * (bwd as int) && b + f * (bwd as int) < fwd * bwd)
                by (nonlinear_arith)
                requires
                    0 <= f < fwd,
                    0 <= b < bwd,
            {}
        }
    }
    let mut t: usize = 0;
    while t < triples.len()
        invariant
            size == fwd * bwd,
            fwd <= 0x7fff,
            bwd <= 0x7fff,
            t <= triples@.len(),
            cells@.len() == 2 + fwd * bwd,
            cells@[0] == fwd as i16,
            cells@[1] == bwd as i16,
            forall|k: int|
                0 <= k < t ==> (#[trigger] triples@[k]).0 < fwd && triples@[k].1 < bwd,
            forall|f: int, b: int|
                0 <= f < fwd && 0 <= b < bwd ==> cells@[2 + b + f * (bwd as int)]
                    == #[trigger] spec_cell_value(triples@.subrange(0, t as int), f, b),
        decreases triples@.len() - t,
    {
        let (f, b, cost) = triples[t];
        if f >= fwd || b >= bwd {
            return Err(BuildError::Content);
        }
        proof {
            assert(0 <= b + f * (bwd as int) && b + f * (bwd as int) < fwd * bwd)
                by (nonlinear_arith)
                requires
                    0 <= f < fwd,
                    0 <= b < bwd,
            {}
            assert((fwd as int) * (bwd as int) < 0x4000_0000) by (nonlinear_arith)
                requires
                    fwd <= 0x7fff,
                    bwd <= 0x7fff,
            {}
        }
        let idx: usize = 2 + (b as usize) + (f as usize) * (bwd as usize);
        let ghost cells_old = cells@;
        cells.set(idx, cost);
        proof {
            assert forall|f2: int, b2: int| 0 <= f2 < fwd && 0 <= b2 < bwd implies cells@[2 + b2
                + f2 * (bwd as int)] == #[trigger] spec_cell_value(
                triples@.subrange(0, t + 1),
                f2,
                b2,
            ) by {
                let pre = triples@.subrange(0, t as int);
                let cur = triples@.subrange(0, t + 1);
                assert(cur.drop_last() =~= pre);
                assert(cur.last() == triples@[t as int]);
                assert(0 <= b2 + f2 * (bwd as int) && b2 + f2 * (bwd as int) < fwd * bwd)
                    by (nonlinear_arith)
                    requires
                        0 <= f2 < fwd,
                        0 <= b2 < bwd,
                {}
                assert(cells_old[2 + b2 + f2 * (bwd as int)] == spec_cell_value(pre, f2, b2));
                if f2 == f && b2 == b {
                    assert(cur.last().0 == f2 && cur.last().1 == b2);
                    assert(spec_cell_value(cur, f2, b2) == cur.last().2);
                    assert(cells@[2 + b2 + f2 * (bwd as int)] == cost);
                } else {
                    assert(b2 + f2 * (bwd as int) != b + f * (bwd as int)) by (nonlinear_arith)
                        requires
                            0 <= f2 < fwd,
                            0 <= b2 < bwd,
                            0 <= f < fwd,
                            0 <= b < bwd,
                            f2 != f || b2 != b,
                            bwd > 0,
                    {}
                    assert(cells@[2 + b2 + f2 * (bwd as int)] == cells_old[2 + b2 + f2 * (
                    bwd as int)]);
                }
            }
        }
        t = t + 1;
    }
    proof {
        assert(triples@.subrange(0, triples@.len() as int) =~= triples@);
    }
    Ok(cells)
}

/// The little-endian bytes of the cells, two per cell, in order.
pub open spec fn spec_cells_bytes(cells: Seq<i16>) -> Seq<u8>
    decreases cells.len(),
{
    if cells.len() == 0 {
        Seq::empty()
    } else {
        spec_cells_bytes(cells.drop_last()) + spec_u16_to_le_bytes(cells.last() as u16)
    }
}

/// Serializes the cost table: cell `i` occupies bytes `[2 * i, 2 * i + 2)`,
/// little-endian.
pub fn encode_cells(cells: &Vec<i16>) -> (r: Vec<u8>)
    ensures
        r@ == spec_cells_bytes(cells@),
        r@.len() == 2 * cells@.len(),
{
    let mut buf: Vec<u8> = Vec::new();
    let mut i: usize = 0;
    while i < cells.len()
        invariant
            i <= cells@.len(),
            buf@ == spec_cells_bytes(cells@.subrange(0, i as int)),
            buf@.len() == 2 * i,
        decreases cells@.len() - i,
    {
        let bytes = u16_to_le_bytes(#[verifier::truncate] (cells[i] as u16));
        push_all(&mut buf, &bytes);
        proof {
            assert(cells@.subrange(0, i + 1).drop_last() =~= cells@.subrange(0, i as int));
            assert(cells@.subrange(0, i + 1).last() == cells@[i as int]);
            vstd::bytes::lemma_auto_spec_u16_to_from_le_bytes();
        }
        i = i + 1;
    }
    proof {
        assert(cells@.subrange(0, cells@.len() as int) =~= cells@);
    }
    buf
}

/// The token lines' views.
pub open spec fn lines_view(lines: Seq<Vec<String>>) -> Seq<Seq<Seq<char>>> {
    lines.map_values(|l: Vec<String>| l@.map_values(|t: String| t@))
}

/// The triples read from the data lines: blank lines are skipped; a line with
/// other than three tokens is a content error; an unreadable number is a
/// parse error.
pub open spec fn spec_triples(ls: Seq<Seq<Seq<char>>>) -> Result<Seq<(u16, u16, i16)>, BuildError>
    decreases ls.len(),
{
    if ls.len() == 0 {
        Ok(Seq::empty())
    } else if ls[0].len() == 0 {
        spec_triples(ls.drop_first())
    } else if ls[0].len() != 3 {
        Err(BuildError::Content)
    } else {
        let f = spec_parse_u16(ls[0][0]);
        let b = spec_parse_u16(ls[0][1]);
        let c = spec_parse_i16(ls[0][2]);
        if f is Some && b is Some && c is Some {
            match spec_triples(ls.drop_first()) {
                Ok(ts) => Ok(seq![(f.unwrap(), b.unwrap(), c.unwrap())] + ts),
                Err(e) => Err(e),
            }
        } else {
            Err(BuildError::Parse)
        }
    }
}

/// The whole table read from the token lines: the first non-blank line must
/// hold exactly the two dimension counts, each at most `0x7fff` so it fits a
/// cell; the rest hold the triples. A missing or misshapen header is a
/// content error; an unreadable count is a parse error.
pub open spec fn spec_matrix_parse(ls: Seq<Seq<Seq<char>>>) -> Result<
    (u16, u16, Seq<(u16, u16, i16)>),
    BuildError,
>
    decreases ls.len(),
{
    if ls.len() == 0 {
        Err(BuildError::Content)
    } else if ls[0].len() == 0 {
        spec_matrix_parse(ls.drop_first())
    } else if ls[0].len() != 2 {
        Err(BuildError::Content)
    } else {
        let f = spec_parse_u16(ls[0][0]);
        let b = spec_parse_u16(ls[0][1]);
        if f is Some && b is Some {
            if f.unwrap() <= 0x7fff && b.unwrap() <= 0x7fff {
                match spec_triples(ls.drop_first()) {
                    Ok(ts) => Ok((f.unwrap(), b.unwrap(), ts)),
                    Err(e) => Err(e),
                }
            } else {
                Err(BuildError::Content)
            }
        } else {
            Err(BuildError::Parse)
        }
    }
}

/// Parses the token lines into the dense cost table and its little-endian
/// bytes. A missing or malformed header or data line is a content or parse
/// error (content for the shape, parse for an unreadable number); a triple
/// whose ids lie outside the declared dimensions is a content error.
pub fn build_cost_matrix_lines(lines: &Vec<Vec<String>>) -> (r: Result<
    (Vec<i16>, Vec<u8>),
    BuildError,
>)
    ensures
        match r {
            Ok((cells, bytes)) => {
                let parsed = spec_matrix_parse(lines_view(lines@));
                &&& parsed is Ok
                &&& {
                    let (fwd, bwd, triples) = parsed.unwrap();
                    &&& cells@.len() == 2 + fwd * bwd
                    &&& cells@[0] == fwd as i16
                    &&& cells@[1] == bwd as i16
                    &&& forall|f: int, b: int|
                        0 <= f < fwd && 0 <= b < bwd ==> cells@[2 + b + f * (bwd as int)]
                            == #[trigger] spec_cell_value(triples, f, b)
                    &&& forall|t: int|
                        0 <= t < triples.len() ==> (#[trigger] triples[t]).0 < fwd && triples[t].1
                            < bwd
                    &&& bytes@ == spec_cells_bytes(cells@)
                }
            },
            Err(e) => spec_matrix_parse(lines_view(lines@)) == Err::<
                (u16, u16, Seq<(u16, u16, i16)>),
                BuildError,
            >(e) || (spec_matrix_parse(lines_view(lines@)) is Ok && e == BuildError::Content && (
            exists|t: int|
                #![trigger spec_matrix_parse(lines_view(lines@)).unwrap().2[t]]
                0 <= t < spec_matrix_parse(lines_view(lines@)).unwrap().2.len() && (
                spec_matrix_parse(lines_view(lines@)).unwrap().2[t].0 >= spec_matrix_parse(
                    lines_view(lines@),
                ).unwrap().0 || spec_matrix_parse(lines_view(lines@)).unwrap().2[t].1
                    >= spec_matrix_parse(lines_view(lines@)).unwrap().1))),
        },
{
    let ghost lv = lines_view(lines@);
    let n = lines.len();
    let mut i: usize = 0;
    proof {
        assert(lv.skip(0) =~= lv);
    }
    while i < n && lines[i].len() == 0
        invariant
            n == lines@.len(),
            i <= n,
            lv == lines_view(lines@),
            spec_matrix_parse(lv) == spec_matrix_parse(lv.skip(i as int)),
        decreases n - i,
    {
        proof {
            let rem = lv.skip(i as int);
            assert(rem[0] == lv[i as int]);
            assert(lv[i as int].len() == lines@[i as int]@.len());
            assert(rem.drop_first() =~= lv.skip(i + 1));
        }
        i = i + 1;
    }
    if i >= n {
        proof {
            assert(lv.skip(n as int) =~= Seq::<Seq<Seq<char>>>::empty());
        }
        return Err(BuildError::Content);
    }
    let header = &lines[i];
    proof {
        assert(lv.skip(i as int)[0] == lv[i as int]);
        assert(lv[i as int].len() == header@.len());
    }
    if header.len() != 2 {
        return Err(BuildError::Content);
    }
    proof {
        assert(lv[i as int][0] == header@[0]@);
        assert(lv[i as int][1] == header@[1]@);
    }
    let fwd = match parse_u16(header[0].as_str()) {
        Some(v) => v,
        None => {
            return Err(BuildError::Parse);
        },
    };
    let bwd = match parse_u16(header[1].as_str()) {
        Some(v) => v,
        None => {
            return Err(BuildError::Parse);
        },
    };
    if fwd > 0x7fff || bwd > 0x7fff {
        return Err(BuildError::Content);
    }
    let ghost hdr = i as int;
    let mut triples: Vec<(u16, u16, i16)> = Vec::new();
    let mut j: usize = i + 1;
    proof {
        assert(lv.skip(hdr).drop_first() =~= lv.skip(hdr + 1));
    }
    while j < n
        invariant
            n == lines@.len(),
            lv == lines_view(lines@),
            0 <= hdr < j <= n,
            spec_matrix_parse(lv) == (match spec_triples(lv.skip(j as int)) {
                Ok(ts) => Ok((fwd, bwd, triples@ + ts)),
                Err(e) => Err::<(u16, u16, Seq<(u16, u16, i16)>), BuildError>(e),
            }),
        decreases n - j,
    {
        let line = &lines[j];
        proof {
            assert(lv.skip(j as int)[0] == lv[j as int]);
            assert(lv[j as int].len() == line@.len());
            assert(lv.skip(j as int).drop_first() =~= lv.skip(j + 1));
        }
        if line.len() == 0 {
            j = j + 1;
        } else {
            if line.len() != 3 {
                return Err(BuildError::Content);
            }
            proof {
                assert(lv[j as int][0] == line@[0]@);
                assert(lv[j as int][1] == line@[1]@);
                assert(lv[j as int][2] == line@[2]@);
            }
            let f = match parse_u16(line[0].as_str()) {
                Some(v) => v,
                None => {
                    return Err(BuildError::Parse);
                },
            };
            let b = match parse_u16(line[1].as_str()) {
                Some(v) => v,
                None => {
                    return Err(BuildError::Parse);
                },
            };
            let c = match parse_i16(line[2].as_str()) {
                Some(v) => v,
                None => {
                    return Err(BuildError::Parse);
                },
            };
            let ghost triples_old = triples@;
            triples.push((f, b, c));
            proof {
                if spec_triples(lv.skip(j + 1)) is Ok {
                    let ts = spec_triples(lv.skip(j + 1)).unwrap();
                    assert(spec_triples(lv.skip(j as int)) == Ok::<
                        Seq<(u16, u16, i16)>,
                        BuildError,
                    >(seq![(f, b, c)] + ts));
                    assert(triples_old + (seq![(f, b, c)] + ts) =~= triples@ + ts);
                }
            }
            j = j + 1;
        }
    }
    proof {
        assert(lv.skip(n as int) =~= Seq::<Seq<Seq<char>>>::empty());
        assert(spec_triples(lv.skip(n as int)) == Ok::<Seq<(u16, u16, i16)>, BuildError>(
            Seq::<(u16, u16, i16)>::empty(),
        ));
        assert(triples@ + Seq::<(u16, u16, i16)>::empty() =~= triples@);
    }
    let cells = match compile_cost_cells(fwd, bwd, &triples) {
        Ok(c) => c,
        Err(_) => {
            proof {
                assert(spec_matrix_parse(lv) == Ok::<(u16, u16, Seq<(u16, u16, i16)>), BuildError>(
                    (fwd, bwd, triples@),
                ));
                let t = choose|t: int|
                    0 <= t < triples@.len() && ((#[trigger] triples@[t]).0 >= fwd || triples@[t].1
                        >= bwd);
                assert(spec_matrix_parse(lines_view(lines@)).unwrap().2[t] == triples@[t]);
            }
            return Err(BuildError::Content);
        },
    };
    let bytes = encode_cells(&cells);
    Ok((cells, bytes))
}

/// What a finished cost-matrix build guarantees of the artifact bytes.
pub open spec fn build_cost_matrix_post(text: Seq<char>, r: Result<Vec<u8>, BuildError>) -> bool {
    match r {
        Ok(bytes) => {
            let parsed = spec_matrix_parse(line_split(text).map_values(|l: Seq<char>| tok_split(l)));
            &&& parsed is Ok
            &&& {
                let (fwd, bwd, triples) = parsed.unwrap();
                exists|cells: Seq<i16>|
                    {
                        &&& cells.len() == 2 + fwd * bwd
                        &&& cells[0] == fwd as i16
                        &&& cells[1] == bwd as i16
                        &&& forall|f: int, b: int|
                            0 <= f < fwd && 0 <= b < bwd ==> cells[2 + b + f * (bwd as int)]
                                == #[trigger] spec_cell_value(triples, f, b)
                        &&& forall|t: int|
                            0 <= t < triples.len() ==> (#[trigger] triples[t]).0 < fwd
                                && triples[t].1 < bwd
                        &&& bytes@ == #[trigger] spec_cells_bytes(cells)
                    }
            }
        },
        Err(e) => {
            let ls = line_split(text).map_values(|l: Seq<char>| tok_split(l));
            spec_matrix_parse(ls) == Err::<(u16, u16, Seq<(u16, u16, i16)>), BuildError>(e) || (
            spec_matrix_parse(ls) is Ok && e == BuildError::Content && (exists|t: int|
                #![trigger spec_matrix_parse(ls).unwrap().2[t]]
                0 <= t < spec_matrix_parse(ls).unwrap().2.len() && (spec_matrix_parse(
                    ls,
                ).unwrap().2[t].0 >= spec_matrix_parse(ls).unwrap().0 || spec_matrix_parse(
                    ls,
                ).unwrap().2[t].1 >= spec_matrix_parse(ls).unwrap().1)))
        },
    }
}

/// Compiles the connection-cost table from its source text: the first
/// non-blank line gives the forward and backward dimension counts; every
/// other non-blank line gives one `(forward id, backward id, cost)` triple,
/// order-independent, later lines overwriting earlier ones; unnamed pairs
/// keep the sentinel maximum. The result is the artifact's bytes: the two
/// counts and the dense cells, each a little-endian 16-bit value.
pub fn build_cost_matrix(text: &str) -> (r: Result<Vec<u8>, BuildError>)
    ensures
        build_cost_matrix_post(text@, r),
{
    let lines = tokenize_matrix(text);
    proof {
        assert(lines_view(lines@) == line_split(text@).map_values(|l: Seq<char>| tok_split(l)));
    }
    match build_cost_matrix_lines(&lines) {
        Ok((cells, bytes)) => {
            proof {
                let parsed = spec_matrix_parse(lines_view(lines@));
                let (fwd, bwd, triples) = parsed.unwrap();
                assert(cells@.len() == 2 + fwd * bwd);
            }
            Ok(bytes)
        },
        Err(e) => Err(e),
    }
}

} // verus!
