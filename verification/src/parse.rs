use vstd::prelude::*;
use vstd::string::StrSliceExecFns;

verus! {

/// The blank characters recognized throughout: the four ASCII ones. The
/// source tables write their numbers and separators with these; blanks from
/// the wider Unicode set are taken as ordinary characters and rejected where
/// a number is expected.
pub open spec fn is_ws(c: char) -> bool {
    c == ' ' || c == '\t' || c == '\r' || c == '\n'
}

/// A decimal digit.
pub open spec fn is_digit(c: char) -> bool {
    ('0' as u32) <= (c as u32) && (c as u32) <= ('9' as u32)
}

/// The numeric value of one digit.
pub open spec fn digit_val(c: char) -> int {
    (c as u32) - ('0' as u32)
}

/// Every character is a digit.
pub open spec fn all_digits(s: Seq<char>) -> bool {
    forall|i: int| 0 <= i < s.len() ==> is_digit(#[trigger] s[i])
}

/// The value of a digit string read in base ten.
pub open spec fn dec_val(s: Seq<char>) -> int
    decreases s.len(),
{
    if s.len() == 0 {
        0
    } else {
        dec_val(s.drop_last()) * 10 + digit_val(s.last())
    }
}

/// A digit string's value is never negative.
pub proof fn lemma_dec_val_nonneg(s: Seq<char>)
    requires
        all_digits(s),
    ensures
        dec_val(s) >= 0,
    decreases s.len(),
{
    if s.len() > 0 {
        assert(all_digits(s.drop_last()));
        lemma_dec_val_nonneg(s.drop_last());
    }
}

/// Reading more digits never shrinks the value.
pub proof fn lemma_dec_val_prefix_le(s: Seq<char>, k: int)
    requires
        all_digits(s),
        0 <= k <= s.len(),
    ensures
        dec_val(s.subrange(0, k)) <= dec_val(s),
    decreases s.len() - k,
{
    if k < s.len() {
        lemma_dec_val_prefix_le(s, k + 1);
        let p = s.subrange(0, k);
        let q = s.subrange(0, k + 1);
        assert(q.drop_last() =~= p);
        assert(all_digits(p));
        lemma_dec_val_nonneg(p);
        assert(dec_val(q) == dec_val(p) * 10 + digit_val(q.last()));
    } else {
        assert(s.subrange(0, k) =~= s);
    }
}

/// Dropping leading blanks.
pub open spec fn drop_leading_ws(s: Seq<char>) -> Seq<char>
    decreases s.len(),
{
    if s.len() > 0 && is_ws(s[0]) {
        drop_leading_ws(s.drop_first())
    } else {
        s
    }
}

/// Dropping trailing blanks.
pub open spec fn drop_trailing_ws(s: Seq<char>) -> Seq<char>
    decreases s.len(),
{
    if s.len() > 0 && is_ws(s.last()) {
        drop_trailing_ws(s.drop_last())
    } else {
        s
    }
}

/// A field with its surrounding blanks removed.
pub open spec fn spec_trim(s: Seq<char>) -> Seq<char> {
    drop_trailing_ws(drop_leading_ws(s))
}

proof fn lemma_drop_leading_step(s: Seq<char>, i: int)
    requires
        0 <= i < s.len(),
        is_ws(s[i]),
    ensures
        drop_leading_ws(s.subrange(i, s.len() as int)) == drop_leading_ws(
            s.subrange(i + 1, s.len() as int),
        ),
{
    let t = s.subrange(i, s.len() as int);
    assert(t.len() > 0 && is_ws(t[0]));
    assert(t.drop_first() =~= s.subrange(i + 1, s.len() as int));
}

proof fn lemma_drop_trailing_step(s: Seq<char>, a: int, j: int)
    requires
        0 <= a <= j - 1,
        j <= s.len(),
        is_ws(s[j - 1]),
    ensures
        drop_trailing_ws(s.subrange(a, j)) == drop_trailing_ws(s.subrange(a, j - 1)),
{
    let t = s.subrange(a, j);
    assert(t.len() > 0 && is_ws(t.last()));
    assert(t.drop_last() =~= s.subrange(a, j - 1));
}

/// Whether the character at `i` is an ASCII blank.
fn ws_at(s: &str, i: usize) -> (r: bool)
    requires
        i < s@.len(),
    ensures
        r == is_ws(s@[i as int]),
{
    let c = s.get_char(i);
    c == ' ' || c == '\t' || c == '\r' || c == '\n'
}

/// Removes leading and trailing ASCII blanks from a field.
pub fn trim(s: &str) -> (r: &str)
    ensures
        r@ == spec_trim(s@),
{
    let n = s.unicode_len();
    proof {
        assert(s@.subrange(0, n as int) =~= s@);
    }
    let mut a: usize = 0;
    while a < n && ws_at(s, a)
        invariant
            n == s@.len(),
            a <= n,
            drop_leading_ws(s@) == drop_leading_ws(s@.subrange(a as int, n as int)),
        decreases n - a,
    {
        proof {
            lemma_drop_leading_step(s@, a as int);
        }
        a = a + 1;
    }
    proof {
        assert(s@.subrange(0, n as int) =~= s@);
        if a < n {
            assert(!is_ws(s@.subrange(a as int, n as int)[0]));
            assert(drop_leading_ws(s@.subrange(a as int, n as int)) == s@.subrange(
                a as int,
                n as int,
            ));
        } else {
            assert(s@.subrange(a as int, n as int).len() == 0);
        }
    }
    let mut b: usize = n;
    while b > a && ws_at(s, b - 1)
        invariant
            n == s@.len(),
            a <= b <= n,
            drop_leading_ws(s@) == s@.subrange(a as int, n as int),
            drop_trailing_ws(s@.subrange(a as int, n as int)) == drop_trailing_ws(
                s@.subrange(a as int, b as int),
            ),
        decreases b,
    {
        proof {
            lemma_drop_trailing_step(s@, a as int, b as int);
        }
        b = b - 1;
    }
    proof {
        let t = s@.subrange(a as int, b as int);
        if b > a {
            assert(t.len() > 0 && !is_ws(t.last()));
            assert(drop_trailing_ws(t) == t);
        } else {
            assert(t.len() == 0);
        }
    }
    s.substring_char(a, b)
}

/// Parses an unsigned digit string (no sign) whose value is at most `bound`.
/// Returns the value exactly when the string is one or more decimal digits
/// and its value does not exceed `bound`.
pub fn parse_digits_bounded(s: &str, start: usize, bound: u32) -> (r: Option<u32>)
    requires
        start <= s@.len(),
        bound <= 0xffff,
    ensures
        ({
            let t = s@.subrange(start as int, s@.len() as int);
            match r {
                Some(v) => t.len() > 0 && all_digits(t) && dec_val(t) == v && v <= bound,
                None => !(t.len() > 0 && all_digits(t) && dec_val(t) <= bound),
            }
        }),
{
    let ghost t = s@.subrange(start as int, s@.len() as int);
    let n = s.unicode_len();
    if start >= n {
        return None;
    }
    let mut acc: u32 = 0;
    let mut i: usize = start;
    while i < n
        invariant
            n == s@.len(),
            start <= i <= n,
            start < n,
            bound <= 0xffff,
            t == s@.subrange(start as int, n as int),
            all_digits(s@.subrange(start as int, i as int)),
            acc == dec_val(s@.subrange(start as int, i as int)),
            acc <= bound,
        decreases n - i,
    {
        let c = s.get_char(i);
        let cu = c as u32;
        if cu < 48 || cu > 57 {
            proof {
                assert(t[i - start] == c);
                assert(!is_digit(c));
                assert(!all_digits(t));
            }
            return None;
        }
        let d = cu - 48;
        let cand = acc * 10 + d;
        proof {
            let p = s@.subrange(start as int, i as int);
            let q = s@.subrange(start as int, i + 1);
            assert(q.drop_last() =~= p);
            assert(q.last() == c);
            assert(dec_val(q) == dec_val(p) * 10 + digit_val(c));
            assert(all_digits(q));
        }
        if cand > bound {
            proof {
                let q = s@.subrange(start as int, i + 1);
                if all_digits(t) && dec_val(t) <= bound {
                    assert(q =~= t.subrange(0, i + 1 - start));
                    lemma_dec_val_prefix_le(t, i + 1 - start);
                }
            }
            return None;
        }
        acc = cand;
        i = i + 1;
    }
    proof {
        assert(s@.subrange(start as int, i as int) =~= t);
    }
    Some(acc)
}

/// The meaning of an unsigned 16-bit field: an optional `+`, then digits,
/// read in base ten, rejected when out of range.
pub open spec fn spec_parse_u16(s: Seq<char>) -> Option<u16> {
    let t = if s.len() > 0 && s[0] == '+' {
        s.drop_first()
    } else {
        s
    };
    if t.len() > 0 && all_digits(t) && dec_val(t) <= 0xffff {
        Some(dec_val(t) as u16)
    } else {
        None
    }
}

/// The meaning of a signed 16-bit field: an optional sign, then digits,
/// read in base ten, rejected when out of range.
pub open spec fn spec_parse_i16(s: Seq<char>) -> Option<i16> {
    if s.len() > 0 && s[0] == '-' {
        let t = s.drop_first();
        if t.len() > 0 && all_digits(t) && dec_val(t) <= 0x8000 {
            Some((-dec_val(t)) as i16)
        } else {
            None
        }
    } else {
        let t = if s.len() > 0 && s[0] == '+' {
            s.drop_first()
        } else {
            s
        };
        if t.len() > 0 && all_digits(t) && dec_val(t) <= 0x7fff {
            Some(dec_val(t) as i16)
        } else {
            None
        }
    }
}

/// Parses an unsigned 16-bit decimal field.
pub fn parse_u16(s: &str) -> (r: Option<u16>)
    ensures
        r == spec_parse_u16(s@),
{
    let n = s.unicode_len();
    let mut start: usize = 0;
    if n > 0 && s.get_char(0) == '+' {
        start = 1;
    }
    proof {
        if start == 1 {
            assert(s@.subrange(1, n as int) =~= s@.drop_first());
        } else {
            assert(s@.subrange(0, n as int) =~= s@);
        }
    }
    match parse_digits_bounded(s, start, 0xffff) {
        Some(v) => Some(v as u16),
        None => None,
    }
}

/// Parses a signed 16-bit decimal field.
pub fn parse_i16(s: &str) -> (r: Option<i16>)
    ensures
        r == spec_parse_i16(s@),
{
    let n = s.unicode_len();
    if n > 0 && s.get_char(0) == '-' {
        proof {
            assert(s@.subrange(1, n as int) =~= s@.drop_first());
        }
        match parse_digits_bounded(s, 1, 0x8000) {
            Some(v) => {
                let neg: i32 = -(v as i32);
                proof {
                    lemma_dec_val_nonneg(s@.drop_first());
                }
                Some(#[verifier::truncate] (neg as i16))
            },
            None => None,
        }
    } else {
        let mut start: usize = 0;
        if n > 0 && s.get_char(0) == '+' {
            start = 1;
        }
        proof {
            if start == 1 {
                assert(s@.subrange(1, n as int) =~= s@.drop_first());
            } else {
                assert(s@.subrange(0, n as int) =~= s@);
            }
        }
        match parse_digits_bounded(s, start, 0x7fff) {
            Some(v) => Some(v as i16),
            None => None,
        }
    }
}

} // verus!
