//! The closed set of post languages.

use vstd::prelude::*;

verus! {

/// A post's language. The set is closed: parsing any other code fails.
#[derive(Debug, Clone, Copy, PartialEq, Eq, Structural)]
pub enum Lang {
    Ja,
    En,
}

/// The language code `Lang::as_str` returns.
pub open spec fn spec_lang_str(l: Lang) -> Seq<char> {
    match l {
        Lang::Ja => "ja"@,
        Lang::En => "en"@,
    }
}

/// The language a code names, if any; matching is ASCII case-insensitive.
pub open spec fn spec_lang_of_str(s: Seq<char>) -> Option<Lang> {
    if ascii_lower(s) == "ja"@ {
        Some(Lang::Ja)
    } else if ascii_lower(s) == "en"@ {
        Some(Lang::En)
    } else {
        None
    }
}

/// ASCII lower-casing of one character; other characters are unchanged.
pub open spec fn ascii_lower_char(c: char) -> char {
    if 'A' <= c <= 'Z' {
        (((c as u32) + 32) as u8) as char
    } else {
        c
    }
}

/// ASCII lower-casing of a character sequence.
pub open spec fn ascii_lower(s: Seq<char>) -> Seq<char> {
    s.map_values(|c: char| ascii_lower_char(c))
}

impl Lang {
    /// The two-letter code of this language.
    pub fn as_str(&self) -> (r: &'static str)
        ensures
            r@ == spec_lang_str(*self),
    {
        match self {
            Lang::Ja => "ja",
            Lang::En => "en",
        }
    }

    /// Parses a language code, ASCII case-insensitively; any code outside
    /// the closed set is an error.
    pub fn from_str(lang: &str) -> (r: Result<Self, LangError>)
        ensures
            match r {
                Ok(l) => spec_lang_of_str(lang@) == Some(l),
                Err(_) => spec_lang_of_str(lang@) is None,
            },
    {
        let lower = lower_ascii_str(lang);
        proof {
            reveal_strlit("ja");
            reveal_strlit("en");
        }
        if str_eq_chars(&lower, "ja") {
            Ok(Lang::Ja)
        } else if str_eq_chars(&lower, "en") {
            Ok(Lang::En)
        } else {
            Err(LangError)
        }
    }

    /// The tokenizer name the index registers for this language:
    /// `"lang_"` followed by the code.
    pub fn tokenizer_name(&self) -> (r: String)
        ensures
            r@ == "lang_"@ + spec_lang_str(*self),
    {
        let mut name = String::from_str("lang_");
        name.append(self.as_str());
        name
    }

    /// The code as an owned string.
    pub fn to_string(&self) -> (r: String)
        ensures
            r@ == spec_lang_str(*self),
    {
        String::from_str(self.as_str())
    }
}

/// Each language's own code parses back to it.
pub proof fn lemma_lang_roundtrip(l: Lang)
    ensures
        spec_lang_of_str(spec_lang_str(l)) == Some(l),
{
    reveal_strlit("ja");
    reveal_strlit("en");
    assert(ascii_lower("ja"@) =~= "ja"@) by {
        assert(ascii_lower("ja"@)[0] == ascii_lower_char('j'));
        assert(ascii_lower("ja"@)[1] == ascii_lower_char('a'));
    }
    assert(ascii_lower("en"@) =~= "en"@) by {
        assert(ascii_lower("en"@)[0] == ascii_lower_char('e'));
        assert(ascii_lower("en"@)[1] == ascii_lower_char('n'));
    }
    assert("ja"@[0] != "en"@[0]);
}

/// The error of `Lang::from_str`: the code is not in the closed set.
#[derive(Debug, Clone, Copy, PartialEq, Eq, Structural)]
pub struct LangError;

impl LangError {
    /// A human-readable description of the error.
    pub fn message(&self) -> (r: &'static str) {
        "Now support ja and en only!"
    }
}

/// ASCII lower-casing of a string, character by character.
pub fn lower_ascii_str(s: &str) -> (r: Vec<char>)
    ensures
        r@ == ascii_lower(s@),
{
    let n = s.unicode_len();
    let mut out: Vec<char> = Vec::new();
    let mut i: usize = 0;
    while i < n
        invariant
            n == s@.len(),
            i <= n,
            out@ == ascii_lower(s@).subrange(0, i as int),
        decreases n - i,
    {
        let c = s.get_char(i);
        let lc: char = if 'A' <= c && c <= 'Z' {
            (((c as u32) + 32) as u8) as char
        } else {
            c
        };
        assert(lc == ascii_lower_char(s@[i as int]));
        out.push(lc);
        assert(out@ =~= ascii_lower(s@).subrange(0, i + 1));
        i = i + 1;
    }
    assert(out@ =~= ascii_lower(s@));
    out
}

/// Whether the characters of `v` spell exactly the string `s`.
pub fn str_eq_chars(v: &Vec<char>, s: &str) -> (r: bool)
    ensures
        r == (v@ == s@),
{
    let n = s.unicode_len();
    if v.len() != n {
        assert(v@ != s@);
        return false;
    }
    let mut i: usize = 0;
    while i < n
        invariant
            n == s@.len(),
            v@.len() == n,
            i <= n,
            forall|j: int| 0 <= j < i ==> v@[j] == s@[j],
        decreases n - i,
    {
        if v[i] != s.get_char(i) {
            return false;
        }
        i = i + 1;
    }
    assert(v@ =~= s@);
    true
}

} // verus!
