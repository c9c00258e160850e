use vstd::prelude::*;
use vstd::string::StrSliceExecFns;
use crate::error::BuildError;

verus! {

/// Character-for-character string equality.
pub fn str_eq_chars(a: &str, b: &str) -> (r: bool)
    ensures
        r == (a@ == b@),
{
    let n = a.unicode_len();
    let m = b.unicode_len();
    if n != m {
        proof {
            assert(a@ != b@);
        }
        return false;
    }
    let mut i: usize = 0;
    while i < n
        invariant
            n == a@.len(),
            n == b@.len(),
            i <= n,
            forall|k: int| 0 <= k < i ==> a@[k] == b@[k],
        decreases n - i,
    {
        if a.get_char(i) != b.get_char(i) {
            proof {
                assert(a@[i as int] != b@[i as int]);
            }
            return false;
        }
        i = i + 1;
    }
    proof {
        assert(a@ =~= b@);
    }
    true
}

/// The adjective conjugation types.
#[derive(Clone, Copy, PartialEq, Eq, Structural, Debug)]
pub enum Keiyoushi {
    /// The a/u/o-row stem.
    Auo,
    /// The i-row stem.
    I,
}

/// The token each adjective conjugation type is written as.
pub open spec fn spec_keiyoushi_from_str(s: Seq<char>) -> Option<Keiyoushi> {
    if s == "アウオ段"@ {
        Some(Keiyoushi::Auo)
    } else if s == "イ段"@ {
        Some(Keiyoushi::I)
    } else {
        None
    }
}

/// The exact token each adjective conjugation type prints as.
pub open spec fn spec_keiyoushi_str(k: Keiyoushi) -> Seq<char> {
    match k {
        Keiyoushi::Auo => "アウオ段"@,
        Keiyoushi::I => "イ段"@,
    }
}

impl Keiyoushi {
    /// Reads the conjugation type from its token; any other token is a parse
    /// error.
    pub fn from_str(s: &str) -> (r: Result<Keiyoushi, BuildError>)
        ensures
            r == match spec_keiyoushi_from_str(s@) {
                Some(k) => Ok::<Keiyoushi, BuildError>(k),
                None => Err::<Keiyoushi, BuildError>(BuildError::Parse),
            },
    {
        if str_eq_chars(s, "アウオ段") {
            Ok(Keiyoushi::Auo)
        } else if str_eq_chars(s, "イ段") {
            Ok(Keiyoushi::I)
        } else {
            Err(BuildError::Parse)
        }
    }

    /// The token this conjugation type is written as.
    pub fn as_str(&self) -> (r: &'static str)
        ensures
            r@ == spec_keiyoushi_str(*self),
            spec_keiyoushi_from_str(r@) == Some(*self),
    {
        proof {
            broadcast use vstd::string::group_string_axioms;

            reveal_strlit("アウオ段");
            reveal_strlit("イ段");
            assert("アウオ段"@.len() == 4);
            assert("イ段"@.len() == 2);
        }
        match self {
            Keiyoushi::Auo => "アウオ段",
            Keiyoushi::I => "イ段",
        }
    }
}

/// The single-row (ichidan) verb conjugation types.
#[derive(Clone, Copy, PartialEq, Eq, Structural, Debug)]
pub enum One {
    /// The yameru subclass.
    Yameru,
    /// The kureru subclass.
    Kureru,
    /// The eru subclass.
    Eru,
    /// The bare ru subclass.
    Ru,
    /// An empty token.
    Empty,
}

/// The token each single-row conjugation type is written as.
pub open spec fn spec_one_from_str(s: Seq<char>) -> Option<One> {
    if s == "病メル"@ {
        Some(One::Yameru)
    } else if s == "クレル"@ {
        Some(One::Kureru)
    } else if s == "得ル"@ {
        Some(One::Eru)
    } else if s == "ル"@ {
        Some(One::Ru)
    } else if s == ""@ {
        Some(One::Empty)
    } else {
        None
    }
}

/// The exact token each single-row conjugation type prints as.
pub open spec fn spec_one_str(k: One) -> Seq<char> {
    match k {
        One::Yameru => "病メル"@,
        One::Kureru => "クレル"@,
        One::Eru => "得ル"@,
        One::Ru => "ル"@,
        One::Empty => ""@,
    }
}

impl One {
    /// Reads the conjugation type from its token; any other token is a parse
    /// error.
    pub fn from_str(s: &str) -> (r: Result<One, BuildError>)
        ensures
            r == match spec_one_from_str(s@) {
                Some(k) => Ok::<One, BuildError>(k),
                None => Err::<One, BuildError>(BuildError::Parse),
            },
    {
        if str_eq_chars(s, "病メル") {
            Ok(One::Yameru)
        } else if str_eq_chars(s, "クレル") {
            Ok(One::Kureru)
        } else if str_eq_chars(s, "得ル") {
            Ok(One::Eru)
        } else if str_eq_chars(s, "ル") {
            Ok(One::Ru)
        } else if str_eq_chars(s, "") {
            Ok(One::Empty)
        } else {
            Err(BuildError::Parse)
        }
    }

    /// The token this conjugation type is written as.
    pub fn as_str(&self) -> (r: &'static str)
        ensures
            r@ == spec_one_str(*self),
            spec_one_from_str(r@) == Some(*self),
    {
        proof {
            broadcast use vstd::string::group_string_axioms;

            reveal_strlit("病メル");
            reveal_strlit("クレル");
            reveal_strlit("得ル");
            reveal_strlit("ル");
            reveal_strlit("");
            assert("病メル"@.len() == 3);
            assert("クレル"@.len() == 3);
            assert("得ル"@.len() == 2);
            assert("ル"@.len() == 1);
            assert(""@.len() == 0);
            assert("クレル"@[0] != "病メル"@[0]);
        }
        match self {
            One::Yameru => "病メル",
            One::Kureru => "クレル",
            One::Eru => "得ル",
            One::Ru => "ル",
            One::Empty => "",
        }
    }
}

/// The irregular s-row (sahen) verb conjugation types.
#[derive(Clone, Copy, PartialEq, Eq, Structural, Debug)]
pub enum SaIrregular {
    /// The verb standing alone.
    Alone,
    /// A compound conjugating with suru.
    ConjugationSuru,
    /// A compound conjugating with zuru.
    ConjugationZuru,
}

/// The token each irregular s-row conjugation type is written as: the
/// compound forms are accepted both with the full-width hyphen and with the
/// minus sign, two more glyphs the legacy encodings confuse.
pub open spec fn spec_sa_irregular_from_str(s: Seq<char>) -> Option<SaIrregular> {
    if s == "スル"@ {
        Some(SaIrregular::Alone)
    } else if s == "\u{ff0d}スル"@ || s == "\u{2212}スル"@ {
        Some(SaIrregular::ConjugationSuru)
    } else if s == "\u{ff0d}ズル"@ || s == "\u{2212}ズル"@ {
        Some(SaIrregular::ConjugationZuru)
    } else {
        None
    }
}

/// The exact token each irregular s-row conjugation type prints as: the
/// minus-sign spelling for the compound forms.
pub open spec fn spec_sa_irregular_str(k: SaIrregular) -> Seq<char> {
    match k {
        SaIrregular::Alone => "スル"@,
        SaIrregular::ConjugationSuru => "\u{2212}スル"@,
        SaIrregular::ConjugationZuru => "\u{2212}ズル"@,
    }
}

impl SaIrregular {
    /// Reads the conjugation type from its token; any other token is a parse
    /// error.
    pub fn from_str(s: &str) -> (r: Result<SaIrregular, BuildError>)
        ensures
            r == match spec_sa_irregular_from_str(s@) {
                Some(k) => Ok::<SaIrregular, BuildError>(k),
                None => Err::<SaIrregular, BuildError>(BuildError::Parse),
            },
    {
        if str_eq_chars(s, "スル") {
            Ok(SaIrregular::Alone)
        } else if str_eq_chars(s, "\u{ff0d}スル") || str_eq_chars(s, "\u{2212}スル") {
            Ok(SaIrregular::ConjugationSuru)
        } else if str_eq_chars(s, "\u{ff0d}ズル") || str_eq_chars(s, "\u{2212}ズル") {
            Ok(SaIrregular::ConjugationZuru)
        } else {
            Err(BuildError::Parse)
        }
    }

    /// The token this conjugation type is written as (the minus-sign form for
    /// the compounds).
    pub fn as_str(&self) -> (r: &'static str)
        ensures
            r@ == spec_sa_irregular_str(*self),
            spec_sa_irregular_from_str(r@) == Some(*self),
    {
        proof {
            broadcast use vstd::string::group_string_axioms;

            reveal_strlit("スル");
            reveal_strlit("\u{ff0d}スル");
            reveal_strlit("\u{2212}スル");
            reveal_strlit("\u{ff0d}ズル");
            reveal_strlit("\u{2212}ズル");
            assert("スル"@.len() == 2);
            assert("\u{ff0d}スル"@.len() == 3);
            assert("\u{2212}スル"@.len() == 3);
            assert("\u{ff0d}ズル"@.len() == 3);
            assert("\u{2212}ズル"@.len() == 3);
            assert("\u{2212}スル"@[0] != "\u{ff0d}スル"@[0]);
            assert("\u{2212}ズル"@[0] != "\u{ff0d}スル"@[0]);
            assert("\u{2212}ズル"@[1] != "\u{2212}スル"@[1]);
            assert("\u{2212}ズル"@[0] != "\u{ff0d}ズル"@[0]);
        }
        match self {
            SaIrregular::Alone => "スル",
            SaIrregular::ConjugationSuru => "\u{2212}スル",
            SaIrregular::ConjugationZuru => "\u{2212}ズル",
        }
    }
}

} // verus!
