//! The front-matter block: the typed record at the head of a post file,
//! its grammar, and its fixed serialization.
//!
//! The grammar is the library's own file format: a block mapping of plain,
//! single- or double-quoted scalars, one `tags:` block sequence, and the
//! optional date fields, between `---` markers. Known limitations of the
//! subset: a flow-style `tags: [a, b]` value is ignored rather than read as
//! a list, and quoted scalars carry no escape sequences.

use vstd::prelude::*;

use crate::chars::{chars_string, str_chars};
use crate::datetime::{
    spec_date_with_format, DateTimeWithFormat, NotationView, UtcDateTime,
};
use crate::lang::{ascii_lower, spec_lang_of_str, Lang};
use crate::schema::PostField;

verus! {

// ---------------------------------------------------------------------------
// Lines, trimming, quoting
// ---------------------------------------------------------------------------

/// The lines of `s[i..]` with `cur` the line being read; separators are
/// dropped, the final line needs no newline.
pub open spec fn spec_lines_from(s: Seq<char>, i: int, cur: Seq<char>) -> Seq<Seq<char>>
    decreases s.len() - i,
{
    if i >= s.len() {
        seq![cur]
    } else if s[i] == '\n' {
        seq![cur] + spec_lines_from(s, i + 1, Seq::empty())
    } else {
        spec_lines_from(s, i + 1, cur.push(s[i]))
    }
}

/// The lines of `s`.
pub open spec fn spec_lines(s: Seq<char>) -> Seq<Seq<char>> {
    spec_lines_from(s, 0, Seq::empty())
}

/// Splits into lines on `'\n'`.
pub fn split_lines(s: &Vec<char>) -> (r: Vec<Vec<char>>)
    ensures
        r@.map_values(|l: Vec<char>| l@) == spec_lines(s@),
{
    let n = s.len();
    let mut out: Vec<Vec<char>> = Vec::new();
    let mut cur: Vec<char> = Vec::new();
    let mut i: usize = 0;
    while i < n
        invariant
            n == s@.len(),
            i <= n,
            spec_lines(s@) == out@.map_values(|l: Vec<char>| l@) + spec_lines_from(
                s@,
                i as int,
                cur@,
            ),
        decreases n - i,
    {
        let c = s[i];
        if c == '\n' {
            let ghost prev = out@;
            let ghost cur_old = cur@;
            out.push(cur);
            assert(out@.map_values(|l: Vec<char>| l@) =~= prev.map_values(|l: Vec<char>| l@)
                + seq![cur_old]);
            cur = Vec::new();
            proof {
                assert(cur@ =~= Seq::<char>::empty());
                assert((prev.map_values(|l: Vec<char>| l@) + seq![cur_old]) + spec_lines_from(
                    s@,
                    i + 1,
                    Seq::empty(),
                ) =~= prev.map_values(|l: Vec<char>| l@) + (seq![cur_old] + spec_lines_from(
                    s@,
                    i + 1,
                    Seq::empty(),
                )));
            }
        } else {
            cur.push(c);
        }
        i = i + 1;
    }
    let ghost prev = out@;
    let ghost cur_old = cur@;
    out.push(cur);
    assert(out@.map_values(|l: Vec<char>| l@) =~= prev.map_values(|l: Vec<char>| l@)
        + seq![cur_old]);
    out
}

/// The index of the first character of `s[i..]` that is not a space, or the
/// length.
pub open spec fn spec_skip_spaces(s: Seq<char>, i: int) -> int
    decreases s.len() - i,
{
    if i >= s.len() {
        s.len() as int
    } else if s[i] == ' ' {
        spec_skip_spaces(s, i + 1)
    } else {
        i
    }
}

/// The end of `s[..j]` with trailing spaces dropped.
pub open spec fn spec_rskip_spaces(s: Seq<char>, j: int) -> int
    decreases j,
{
    if j <= 0 {
        0
    } else if s[j - 1] == ' ' {
        spec_rskip_spaces(s, j - 1)
    } else {
        j
    }
}

/// `s` with leading and trailing spaces dropped.
pub open spec fn spec_trim(s: Seq<char>) -> Seq<char> {
    let a = spec_skip_spaces(s, 0);
    let b = spec_rskip_spaces(s, s.len() as int);
    if a >= b {
        Seq::empty()
    } else {
        s.subrange(a, b)
    }
}

/// The first non-space position at or after `i`.
pub fn skip_spaces(s: &Vec<char>, i: usize) -> (r: usize)
    requires
        i <= s@.len(),
    ensures
        r as int == spec_skip_spaces(s@, i as int),
        i <= r <= s@.len(),
    decreases s@.len() - i,
{
    let n = s.len();
    if i >= n {
        n
    } else if s[i] == ' ' {
        skip_spaces(s, i + 1)
    } else {
        i
    }
}

/// The end of `s[..j]` with trailing spaces dropped.
pub fn rskip_spaces(s: &Vec<char>, j: usize) -> (r: usize)
    requires
        j <= s@.len(),
    ensures
        r as int == spec_rskip_spaces(s@, j as int),
        r <= j,
    decreases j,
{
    if j == 0 {
        0
    } else if s[j - 1] == ' ' {
        rskip_spaces(s, j - 1)
    } else {
        j
    }
}

/// A copy of `s[a..b]`.
pub fn subrange_chars(s: &Vec<char>, a: usize, b: usize) -> (r: Vec<char>)
    requires
        a <= b <= s@.len(),
    ensures
        r@ == s@.subrange(a as int, b as int),
{
    let mut out: Vec<char> = Vec::new();
    let mut i: usize = a;
    while i < b
        invariant
            a <= i <= b <= s@.len(),
            out@ == s@.subrange(a as int, i as int),
        decreases b - i,
    {
        out.push(s[i]);
        assert(out@ =~= s@.subrange(a as int, i + 1));
        i = i + 1;
    }
    out
}

/// `s` with leading and trailing spaces dropped.
pub fn trim_chars(s: &Vec<char>) -> (r: Vec<char>)
    ensures
        r@ == spec_trim(s@),
{
    let n = s.len();
    let a = skip_spaces(s, 0);
    let b = rskip_spaces(s, n);
    if a >= b {
        let empty: Vec<char> = Vec::new();
        assert(empty@ =~= Seq::<char>::empty());
        empty
    } else {
        subrange_chars(s, a, b)
    }
}

/// A scalar with a matching pair of single or double quotes removed.
pub open spec fn spec_unquote(t: Seq<char>) -> Seq<char> {
    if t.len() >= 2 && t[0] == '"' && t[t.len() - 1] == '"' {
        t.subrange(1, t.len() - 1)
    } else if t.len() >= 2 && t[0] == '\'' && t[t.len() - 1] == '\'' {
        t.subrange(1, t.len() - 1)
    } else {
        t
    }
}

/// Removes a matching pair of single or double quotes.
pub fn unquote_chars(t: &Vec<char>) -> (r: Vec<char>)
    ensures
        r@ == spec_unquote(t@),
{
    let n = t.len();
    if n >= 2 && t[0] == '"' && t[n - 1] == '"' {
        subrange_chars(t, 1, n - 1)
    } else if n >= 2 && t[0] == '\'' && t[n - 1] == '\'' {
        subrange_chars(t, 1, n - 1)
    } else {
        let mut out: Vec<char> = Vec::new();
        crate::chars::extend_chars(&mut out, t);
        assert(out@ =~= t@);
        out
    }
}

/// The index of the first occurrence of `c` in `s[i..]`, or the length.
pub open spec fn spec_find_char(s: Seq<char>, i: int, c: char) -> int
    decreases s.len() - i,
{
    if i >= s.len() {
        s.len() as int
    } else if s[i] == c {
        i
    } else {
        spec_find_char(s, i + 1, c)
    }
}

/// The first occurrence of `c` at or after `i`, or the length.
pub fn find_char(s: &Vec<char>, i: usize, c: char) -> (r: usize)
    requires
        i <= s@.len(),
    ensures
        r as int == spec_find_char(s@, i as int, c),
        i <= r <= s@.len(),
    decreases s@.len() - i,
{
    let n = s.len();
    if i >= n {
        n
    } else if s[i] == c {
        i
    } else {
        find_char(s, i + 1, c)
    }
}

// ---------------------------------------------------------------------------
// The front-matter block markers
// ---------------------------------------------------------------------------

/// The first position `k` at or after `i` where the marker line `---` and a
/// newline begin, or the length when there is none.
pub open spec fn spec_find_marker(s: Seq<char>, i: int) -> int
    decreases s.len() - i,
{
    if i + 4 > s.len() {
        s.len() as int
    } else if s.subrange(i, i + 4) == "---\n"@ {
        i
    } else {
        spec_find_marker(s, i + 1)
    }
}

/// Where the front-matter block of `s` stands: `Some((0, end))` with `end`
/// just after the closing marker line, when `s` opens with a marker line and
/// a second one follows; `None` otherwise.
pub open spec fn spec_find_frontmatter_block(s: Seq<char>) -> Option<(int, int)> {
    if s.len() >= 4 && s.subrange(0, 4) == "---\n"@ {
        let k = spec_find_marker(s, 4);
        if k + 4 <= s.len() {
            Some((0int, k + 4))
        } else {
            None
        }
    } else {
        None
    }
}

/// Whether the marker line `---` and a newline begin at `i`.
fn marker_at(s: &Vec<char>, i: usize) -> (r: bool)
    requires
        i + 4 <= s@.len(),
    ensures
        r == (s@.subrange(i as int, i as int + 4) == "---\n"@),
{
    proof {
        reveal_strlit("---\n");
    }
    let n = s.len();
    let r = s[i] == '-' && s[i + 1] == '-' && s[i + 2] == '-' && s[i + 3] == '\n';
    proof {
        if r {
            assert(s@.subrange(i as int, i as int + 4) =~= "---\n"@);
        } else {
            assert(s@.subrange(i as int, i as int + 4)[0] == s@[i as int]);
            assert(s@.subrange(i as int, i as int + 4)[1] == s@[i as int + 1]);
            assert(s@.subrange(i as int, i as int + 4)[2] == s@[i as int + 2]);
            assert(s@.subrange(i as int, i as int + 4)[3] == s@[i as int + 3]);
        }
    }
    r
}

/// The first marker position at or after `i`, or the length.
fn find_marker(s: &Vec<char>, i: usize) -> (r: usize)
    requires
        i <= s@.len(),
    ensures
        r as int == spec_find_marker(s@, i as int),
        r <= s@.len(),
    decreases s@.len() - i,
{
    let n = s.len();
    if n - i < 4 {
        n
    } else if marker_at(s, i) {
        i
    } else {
        find_marker(s, i + 1)
    }
}

/// Finds the front-matter block: the text must open with a `---` marker
/// line, and the block runs to the end of the next marker line. Positions
/// count characters.
pub fn find_frontmatter_block(text: &str) -> (r: Option<(usize, usize)>)
    ensures
        match r {
            Some((a, b)) => {
                &&& spec_find_frontmatter_block(text@) == Some((a as int, b as int))
                &&& a == 0
                &&& 8 <= b <= text@.len()
            },
            None => spec_find_frontmatter_block(text@) is None,
        },
{
    let chars = str_chars(text);
    let n = chars.len();
    if n < 4 {
        return None;
    }
    if !marker_at(&chars, 0) {
        return None;
    }
    let k = find_marker(&chars, 4);
    if n - k < 4 {
        return None;
    }
    proof {
        lemma_find_marker_at_least(chars@, 4);
    }
    Some((0, k + 4))
}

/// A marker found from `i` on stands at or after `i`.
proof fn lemma_find_marker_at_least(s: Seq<char>, i: int)
    requires
        0 <= i <= s.len(),
    ensures
        spec_find_marker(s, i) >= i,
    decreases s.len() - i,
{
    if i + 4 > s.len() {
    } else if s.subrange(i, i + 4) == "---\n"@ {
    } else {
        lemma_find_marker_at_least(s, i + 1);
    }
}

// ---------------------------------------------------------------------------
// The front-matter record
// ---------------------------------------------------------------------------

/// The error of front-matter parsing.
#[derive(Debug, Clone, Copy, PartialEq, Eq, Structural)]
pub enum ParseError {
    /// A required field is absent.
    MissingField(PostField),
    /// The language code is outside the closed set.
    InvalidLang,
    /// A tags entry is not a plain scalar.
    InvalidTag,
    /// A date value no supported notation accepts.
    InvalidDate(PostField),
    /// A line is neither a mapping entry, a tags entry, a marker, nor blank.
    Malformed,
}

impl ParseError {
    /// A human-readable description of the error.
    pub fn message(&self) -> (r: &'static str) {
        match self {
            ParseError::MissingField(_) => "field is need in frontmatter",
            ParseError::InvalidLang => "Now support ja and en only!",
            ParseError::InvalidTag => "Unsupported tag type. Tags must be intger or string",
            ParseError::InvalidDate(_) => "Cannot Parse",
            ParseError::Malformed => "invalid frontmatter",
        }
    }
}

/// Text the line-based format can carry faithfully: no line breaks.
pub open spec fn spec_line_safe(s: Seq<char>) -> bool {
    forall|i: int| 0 <= i < s.len() ==> s[i] != '\n'
}

/// The abstract value of a front-matter record.
#[verifier::ext_equal]
pub struct FmView {
    pub uuid: Seq<char>,
    pub title: Seq<char>,
    pub description: Seq<char>,
    pub lang: Lang,
    pub category: Seq<char>,
    pub tags: Option<Seq<Seq<char>>>,
    pub created_at: Option<(UtcDateTime, NotationView)>,
    pub updated_at: Option<(UtcDateTime, NotationView)>,
}

/// The typed front-matter record. Immutable once constructed; edits build a
/// new record.
#[derive(Debug)]
pub struct FrontMatter {
    pub uuid: String,
    pub title: String,
    pub description: String,
    pub lang: Lang,
    pub category: String,
    pub tags: Option<Vec<String>>,
    pub created_at: Option<DateTimeWithFormat>,
    pub updated_at: Option<DateTimeWithFormat>,
}

/// The view of an optional date-with-notation.
pub open spec fn opt_dtf_view(o: Option<DateTimeWithFormat>) -> Option<(UtcDateTime, NotationView)> {
    match o {
        Some(d) => Some((d.datetime, crate::datetime::notation_view(d.format))),
        None => None,
    }
}

/// The view of optional tags.
pub open spec fn opt_tags_view(o: Option<Vec<String>>) -> Option<Seq<Seq<char>>> {
    match o {
        Some(ts) => Some(crate::schema::strs_view(ts@)),
        None => None,
    }
}

impl FmView {
    /// Whether the record's text fields can stand on single lines of the
    /// serialized form: none of the identity, prose, category or tag values
    /// holds a line break. (The serializer demands this; a parsed record
    /// always satisfies it, since scalars come from single lines.)
    pub open spec fn text_line_safe(self) -> bool {
        &&& spec_line_safe(self.uuid)
        &&& spec_line_safe(self.title)
        &&& spec_line_safe(self.description)
        &&& spec_line_safe(self.category)
        &&& match self.tags {
            Some(ts) => forall|k: int| 0 <= k < ts.len() ==> spec_line_safe(#[trigger] ts[k]),
            None => true,
        }
    }
}

impl View for FrontMatter {
    type V = FmView;

    open spec fn view(&self) -> FmView {
        FmView {
            uuid: self.uuid@,
            title: self.title@,
            description: self.description@,
            lang: self.lang,
            category: self.category@,
            tags: opt_tags_view(self.tags),
            created_at: opt_dtf_view(self.created_at),
            updated_at: opt_dtf_view(self.updated_at),
        }
    }
}

impl FrontMatter {
    /// Well-formedness: the dates, where present, are on the calendar.
    pub open spec fn wf(self) -> bool {
        &&& match self.created_at {
            Some(d) => d.wf(),
            None => true,
        }
        &&& match self.updated_at {
            Some(d) => d.wf(),
            None => true,
        }
    }

    /// Builds a record from its parts.
    pub fn new(
        uuid: String,
        title: String,
        description: String,
        category: String,
        lang: Lang,
        tags: Option<Vec<String>>,
        created_at: Option<DateTimeWithFormat>,
        updated_at: Option<DateTimeWithFormat>,
    ) -> (r: Self)
        ensures
            r.uuid == uuid && r.title == title && r.description == description && r.category
                == category && r.lang == lang && r.tags == tags && r.created_at == created_at
                && r.updated_at == updated_at,
    {
        Self { uuid, title, description, lang, category, tags, created_at, updated_at }
    }

    /// The stable identity.
    pub fn uuid(&self) -> (r: String)
        ensures
            r@ == self.uuid@,
    {
        self.uuid.clone()
    }

    /// The title.
    pub fn title(&self) -> (r: String)
        ensures
            r@ == self.title@,
    {
        self.title.clone()
    }

    /// The description.
    pub fn description(&self) -> (r: String)
        ensures
            r@ == self.description@,
    {
        self.description.clone()
    }

    /// The tags, order kept, duplicates allowed.
    pub fn tags(&self) -> (r: Option<Vec<String>>)
        ensures
            opt_tags_view(r) == opt_tags_view(self.tags),
    {
        match &self.tags {
            Some(ts) => Some(clone_strings(ts)),
            None => None,
        }
    }

    /// The language.
    pub fn lang(&self) -> (r: Lang)
        ensures
            r == self.lang,
    {
        self.lang
    }

    /// The category.
    pub fn category(&self) -> (r: String)
        ensures
            r@ == self.category@,
    {
        self.category.clone()
    }

    /// The creation date, with its notation.
    pub fn created_at(&self) -> (r: Option<DateTimeWithFormat>)
        ensures
            r == self.created_at,
    {
        match &self.created_at {
            Some(d) => Some(d.clone()),
            None => None,
        }
    }

    /// The last-update date, with its notation.
    pub fn updated_at(&self) -> (r: Option<DateTimeWithFormat>)
        ensures
            r == self.updated_at,
    {
        match &self.updated_at {
            Some(d) => Some(d.clone()),
            None => None,
        }
    }

    /// Replaces the last-update date.
    pub fn set_updated_at(&mut self, updated_at: Option<DateTimeWithFormat>)
        ensures
            *final(self) == (FrontMatter { updated_at, ..*old(self) }),
    {
        self.updated_at = updated_at;
    }

    /// The relaxed equality upsert idempotence rests on: true exactly when
    /// identity, title, description, category, tags and language all match.
    /// Both timestamps are ignored: a record rebuilt from the index never
    /// has the file's exact `updated_at` (it drifts by design), so strict
    /// equality would defeat idempotence.
    pub fn equal_matter_from_doc(&self, other: &FrontMatter) -> (r: bool)
        ensures
            r == spec_equal_matter_from_doc(self@, other@),
    {
        str_equal(&self.uuid, &other.uuid) && str_equal(&self.title, &other.title) && str_equal(
            &self.description,
            &other.description,
        ) && str_equal(&self.category, &other.category) && tags_equal(&self.tags, &other.tags)
            && self.lang == other.lang
    }
}

/// The relaxed record equality: identity, prose, category, tags and
/// language; `created_at` and `updated_at` are both ignored.
pub open spec fn spec_equal_matter_from_doc(a: FmView, b: FmView) -> bool {
    &&& a.uuid == b.uuid
    &&& a.title == b.title
    &&& a.description == b.description
    &&& a.category == b.category
    &&& a.tags == b.tags
    &&& a.lang == b.lang
}

impl Clone for FrontMatter {
    fn clone(&self) -> (r: Self)
        ensures
            r@ == self@,
            r.created_at == self.created_at,
            r.updated_at == self.updated_at,
    {
        let r = FrontMatter {
            uuid: self.uuid.clone(),
            title: self.title.clone(),
            description: self.description.clone(),
            lang: self.lang,
            category: self.category.clone(),
            tags: match &self.tags {
                Some(ts) => Some(clone_strings_exact(ts)),
                None => None,
            },
            created_at: match &self.created_at {
                Some(d) => Some(d.clone()),
                None => None,
            },
            updated_at: match &self.updated_at {
                Some(d) => Some(d.clone()),
                None => None,
            },
        };
        assert(r@ =~= self@);
        r
    }
}

impl vstd::std_specs::cmp::PartialEqSpecImpl for FrontMatter {
    open spec fn obeys_eq_spec() -> bool {
        true
    }

    open spec fn eq_spec(&self, other: &Self) -> bool {
        self@ == other@
    }
}

impl PartialEq for FrontMatter {
    fn eq(&self, other: &Self) -> (r: bool) {
        let base = str_equal(&self.uuid, &other.uuid) && str_equal(&self.title, &other.title)
            && str_equal(&self.description, &other.description) && str_equal(
            &self.category,
            &other.category,
        ) && tags_equal(&self.tags, &other.tags) && self.lang == other.lang;
        let created = opt_dtf_equal(&self.created_at, &other.created_at);
        let updated = opt_dtf_equal(&self.updated_at, &other.updated_at);
        let r = base && created && updated;
        proof {
            if r {
                assert(self@ =~= other@);
            } else {
                assert(!(self@ == other@));
            }
        }
        r
    }
}

/// String equality through `String::eq`.
pub fn str_equal(a: &String, b: &String) -> (r: bool)
    ensures
        r == (a@ == b@),
{
    a.eq(b)
}

/// Equality of optional tag lists, by content.
pub fn tags_equal(a: &Option<Vec<String>>, b: &Option<Vec<String>>) -> (r: bool)
    ensures
        r == (opt_tags_view(*a) == opt_tags_view(*b)),
{
    match (a, b) {
        (None, None) => true,
        (Some(x), Some(y)) => {
            let r = strings_equal(x, y);
            proof {
                if !r {
                    assert(opt_tags_view(*a) != opt_tags_view(*b));
                }
            }
            r
        },
        _ => false,
    }
}

/// Equality of string vectors, by content.
pub fn strings_equal(x: &Vec<String>, y: &Vec<String>) -> (r: bool)
    ensures
        r == (crate::schema::strs_view(x@) == crate::schema::strs_view(y@)),
{
    let n = x.len();
    if y.len() != n {
        assert(crate::schema::strs_view(x@).len() != crate::schema::strs_view(y@).len());
        return false;
    }
    let mut i: usize = 0;
    while i < n
        invariant
            n == x@.len(),
            y@.len() == n,
            i <= n,
            forall|j: int| 0 <= j < i ==> x@[j]@ == y@[j]@,
        decreases n - i,
    {
        if !x[i].eq(&y[i]) {
            proof {
                assert(crate::schema::strs_view(x@)[i as int] != crate::schema::strs_view(
                    y@,
                )[i as int]);
            }
            return false;
        }
        i = i + 1;
    }
    assert(crate::schema::strs_view(x@) =~= crate::schema::strs_view(y@));
    true
}

/// Equality of optional dates-with-notation, by content.
pub fn opt_dtf_equal(a: &Option<DateTimeWithFormat>, b: &Option<DateTimeWithFormat>) -> (r: bool)
    ensures
        r == (opt_dtf_view(*a) == opt_dtf_view(*b)),
{
    match (a, b) {
        (None, None) => true,
        (Some(x), Some(y)) => x.datetime == y.datetime && x.format.eq(&y.format),
        _ => false,
    }
}

/// Clones a vector of strings, keeping its content.
pub fn clone_strings(ts: &Vec<String>) -> (r: Vec<String>)
    ensures
        crate::schema::strs_view(r@) == crate::schema::strs_view(ts@),
{
    clone_strings_exact(ts)
}

// ---------------------------------------------------------------------------
// Scanning the block, line by line
// ---------------------------------------------------------------------------

/// The raw values a scan of the block collects, before validation.
#[verifier::ext_equal]
pub struct RawMatter {
    pub uuid: Option<Seq<char>>,
    pub title: Option<Seq<char>>,
    pub description: Option<Seq<char>>,
    pub lang: Option<Seq<char>>,
    pub category: Option<Seq<char>>,
    pub tags: Option<Seq<Seq<char>>>,
    pub tags_bad: bool,
    pub created: Option<Seq<char>>,
    pub updated: Option<Seq<char>>,
}

/// Nothing collected yet.
pub open spec fn spec_empty_raw() -> RawMatter {
    RawMatter {
        uuid: None,
        title: None,
        description: None,
        lang: None,
        category: None,
        tags: None,
        tags_bad: false,
        created: None,
        updated: None,
    }
}

/// Whether a trimmed tags entry is outside the scalar subset.
pub open spec fn spec_tag_bad(v: Seq<char>) -> bool {
    v.len() == 0 || v[0] == '[' || v[0] == '{'
}

/// Scans the lines from `i` on. Blank lines are skipped; a `---` line is
/// skipped and ends a tags block; `- ` lines extend the open tags block and
/// are an error outside one; every other line must be a `key: value`
/// mapping entry. Later values overwrite earlier ones; unknown keys are
/// ignored.
pub open spec fn spec_scan(lines: Seq<Seq<char>>, i: int, in_tags: bool, acc: RawMatter) -> Result<
    RawMatter,
    ParseError,
>
    decreases lines.len() - i,
{
    if i >= lines.len() {
        Ok(acc)
    } else {
        let t = spec_trim(lines[i]);
        if t.len() == 0 {
            spec_scan(lines, i + 1, in_tags, acc)
        } else if t == "---"@ {
            spec_scan(lines, i + 1, false, acc)
        } else if t.len() >= 2 && t[0] == '-' && t[1] == ' ' {
            if !in_tags {
                Err(ParseError::Malformed)
            } else {
                let v = spec_unquote(spec_trim(t.subrange(2, t.len() as int)));
                let ts = match acc.tags {
                    Some(x) => x,
                    None => Seq::empty(),
                };
                spec_scan(
                    lines,
                    i + 1,
                    true,
                    RawMatter {
                        tags: Some(ts.push(v)),
                        tags_bad: acc.tags_bad || spec_tag_bad(v),
                        ..acc
                    },
                )
            }
        } else {
            let k = spec_find_char(t, 0, ':');
            if k == t.len() {
                Err(ParseError::Malformed)
            } else {
                let key = spec_trim(t.subrange(0, k));
                let rest = spec_trim(t.subrange(k + 1, t.len() as int));
                if key == "tags"@ {
                    if rest.len() == 0 {
                        spec_scan(
                            lines,
                            i + 1,
                            true,
                            RawMatter { tags: Some(Seq::empty()), ..acc },
                        )
                    } else {
                        spec_scan(lines, i + 1, false, acc)
                    }
                } else if rest.len() == 0 {
                    spec_scan(lines, i + 1, false, acc)
                } else {
                    let v = spec_unquote(rest);
                    if key == "uuid"@ {
                        spec_scan(lines, i + 1, false, RawMatter { uuid: Some(v), ..acc })
                    } else if key == "title"@ {
                        spec_scan(lines, i + 1, false, RawMatter { title: Some(v), ..acc })
                    } else if key == "description"@ {
                        spec_scan(lines, i + 1, false, RawMatter { description: Some(v), ..acc })
                    } else if key == "lang"@ {
                        spec_scan(lines, i + 1, false, RawMatter { lang: Some(v), ..acc })
                    } else if key == "category"@ {
                        spec_scan(lines, i + 1, false, RawMatter { category: Some(v), ..acc })
                    } else if key == "created_at"@ {
                        spec_scan(lines, i + 1, false, RawMatter { created: Some(v), ..acc })
                    } else if key == "updated_at"@ {
                        spec_scan(lines, i + 1, false, RawMatter { updated: Some(v), ..acc })
                    } else {
                        spec_scan(lines, i + 1, false, acc)
                    }
                }
            }
        }
    }
}

/// The raw values, as collected by the executable scan.
pub struct RawAcc {
    pub uuid: Option<String>,
    pub title: Option<String>,
    pub description: Option<String>,
    pub lang: Option<String>,
    pub category: Option<String>,
    pub tags: Option<Vec<String>>,
    pub tags_bad: bool,
    pub created: Option<String>,
    pub updated: Option<String>,
}

/// The abstract value of an accumulator.
pub open spec fn raw_view(a: RawAcc) -> RawMatter {
    RawMatter {
        uuid: opt_sv(a.uuid),
        title: opt_sv(a.title),
        description: opt_sv(a.description),
        lang: opt_sv(a.lang),
        category: opt_sv(a.category),
        tags: opt_tags_view(a.tags),
        tags_bad: a.tags_bad,
        created: opt_sv(a.created),
        updated: opt_sv(a.updated),
    }
}

/// The view of an optional string.
pub open spec fn opt_sv(o: Option<String>) -> Option<Seq<char>> {
    match o {
        Some(s) => Some(s@),
        None => None,
    }
}

/// Whether a trimmed line is the `---` marker.
fn is_dashes(t: &Vec<char>) -> (r: bool)
    ensures
        r == (t@ == "---"@),
{
    proof {
        reveal_strlit("---");
    }
    if t.len() == 3 && t[0] == '-' && t[1] == '-' && t[2] == '-' {
        assert(t@ =~= "---"@);
        true
    } else {
        false
    }
}

/// Scans the lines of a block.
#[verifier::rlimit(100)]
fn scan_lines(lines: &Vec<Vec<char>>) -> (r: Result<RawAcc, ParseError>)
    ensures
        match r {
            Ok(acc) => spec_scan(
                lines@.map_values(|l: Vec<char>| l@),
                0,
                false,
                spec_empty_raw(),
            ) == Ok::<RawMatter, ParseError>(raw_view(acc)),
            Err(e) => spec_scan(
                lines@.map_values(|l: Vec<char>| l@),
                0,
                false,
                spec_empty_raw(),
            ) == Err::<RawMatter, ParseError>(e),
        },
{
    let ghost lv = lines@.map_values(|l: Vec<char>| l@);
    let n = lines.len();
    let mut acc = RawAcc {
        uuid: None,
        title: None,
        description: None,
        lang: None,
        category: None,
        tags: None,
        tags_bad: false,
        created: None,
        updated: None,
    };
    let mut in_tags: bool = false;
    let mut i: usize = 0;
    proof {
        assert(raw_view(acc) =~= spec_empty_raw());
    }
    while i < n
        invariant
            n == lines@.len(),
            lv == lines@.map_values(|l: Vec<char>| l@),
            i <= n,
            spec_scan(lv, 0, false, spec_empty_raw()) == spec_scan(
                lv,
                i as int,
                in_tags,
                raw_view(acc),
            ),
        decreases n - i,
    {
        proof {
            assert(lv[i as int] == lines@[i as int]@);
        }
        let ghost acc0 = raw_view(acc);
        let ghost in_tags0 = in_tags;
        let t = trim_chars(&lines[i]);
        let tn = t.len();
        if tn == 0 {
        } else if is_dashes(&t) {
            in_tags = false;
        } else if tn >= 2 && t[0] == '-' && t[1] == ' ' {
            if !in_tags {
                return Err(ParseError::Malformed);
            }
            let v = unquote_chars(&trim_chars(&subrange_chars(&t, 2, tn)));
            let bad = v.len() == 0 || v[0] == '[' || v[0] == '{';
            let vs = chars_string(&v);
            let ghost old_tags = acc.tags;
            match &mut acc.tags {
                Some(ts) => {
                    let ghost tsv = ts@;
                    ts.push(vs);
                    assert(crate::schema::strs_view(acc.tags->0@) =~= crate::schema::strs_view(
                        tsv,
                    ).push(v@));
                },
                None => {
                    let mut ts: Vec<String> = Vec::new();
                    ts.push(vs);
                    assert(crate::schema::strs_view(ts@) =~= Seq::<Seq<char>>::empty().push(v@));
                    acc.tags = Some(ts);
                },
            }
            acc.tags_bad = acc.tags_bad || bad;
            proof {
                assert(raw_view(acc) =~= (RawMatter {
                    tags: Some(
                        (match acc0.tags {
                            Some(x) => x,
                            None => Seq::empty(),
                        }).push(v@),
                    ),
                    tags_bad: acc0.tags_bad || spec_tag_bad(v@),
                    ..acc0
                }));
            }
        } else {
            let k = find_char(&t, 0, ':');
            if k == tn {
                return Err(ParseError::Malformed);
            }
            let key = trim_chars(&subrange_chars(&t, 0, k));
            let rest = trim_chars(&subrange_chars(&t, k + 1, tn));
            if crate::lang::str_eq_chars(&key, "tags") {
                if rest.len() == 0 {
                    in_tags = true;
                    acc.tags = Some(Vec::new());
                    proof {
                        assert(crate::schema::strs_view(acc.tags->0@) =~= Seq::<Seq<char>>::empty());
                        assert(raw_view(acc) =~= (RawMatter {
                            tags: Some(Seq::<Seq<char>>::empty()),
                            ..acc0
                        }));
                    }
                } else {
                    in_tags = false;
                }
            } else if rest.len() == 0 {
                in_tags = false;
            } else {
                in_tags = false;
                let v = unquote_chars(&rest);
                let vs = chars_string(&v);
                if crate::lang::str_eq_chars(&key, "uuid") {
                    acc.uuid = Some(vs);
                    assert(raw_view(acc) =~= (RawMatter { uuid: Some(v@), ..acc0 }));
                } else if crate::lang::str_eq_chars(&key, "title") {
                    acc.title = Some(vs);
                    assert(raw_view(acc) =~= (RawMatter { title: Some(v@), ..acc0 }));
                } else if crate::lang::str_eq_chars(&key, "description") {
                    acc.description = Some(vs);
                    assert(raw_view(acc) =~= (RawMatter { description: Some(v@), ..acc0 }));
                } else if crate::lang::str_eq_chars(&key, "lang") {
                    acc.lang = Some(vs);
                    assert(raw_view(acc) =~= (RawMatter { lang: Some(v@), ..acc0 }));
                } else if crate::lang::str_eq_chars(&key, "category") {
                    acc.category = Some(vs);
                    assert(raw_view(acc) =~= (RawMatter { category: Some(v@), ..acc0 }));
                } else if crate::lang::str_eq_chars(&key, "created_at") {
                    acc.created = Some(vs);
                    assert(raw_view(acc) =~= (RawMatter { created: Some(v@), ..acc0 }));
                } else if crate::lang::str_eq_chars(&key, "updated_at") {
                    acc.updated = Some(vs);
                    assert(raw_view(acc) =~= (RawMatter { updated: Some(v@), ..acc0 }));
                }
            }
        }
        proof {
            assert(spec_scan(lv, i as int, in_tags0, acc0) == spec_scan(
                lv,
                i + 1,
                in_tags,
                raw_view(acc),
            ));
        }
        i = i + 1;
    }
    Ok(acc)
}

/// Clones a vector of strings.
pub fn clone_strings_exact(ts: &Vec<String>) -> (r: Vec<String>)
    ensures
        r@ == ts@,
{
    let n = ts.len();
    let mut out: Vec<String> = Vec::new();
    let mut i: usize = 0;
    while i < n
        invariant
            n == ts@.len(),
            i <= n,
            out@ == ts@.subrange(0, i as int),
        decreases n - i,
    {
        out.push(ts[i].clone());
        assert(out@ =~= ts@.subrange(0, i + 1));
        i = i + 1;
    }
    assert(out@ =~= ts@);
    out
}

// ---------------------------------------------------------------------------
// Parsing, replacing
// ---------------------------------------------------------------------------

/// What parsing a front-matter block yields: the scanned values validated —
/// identity, title, category and description must be present; the language
/// defaults to `ja`; tags entries must be plain scalars; dates must parse
/// under some notation.
pub open spec fn spec_parse_frontmatter(s: Seq<char>) -> Result<FmView, ParseError> {
    match spec_scan(spec_lines(s), 0, false, spec_empty_raw()) {
        Err(e) => Err(e),
        Ok(raw) => {
            if raw.uuid is None {
                Err(ParseError::MissingField(PostField::Uuid))
            } else if raw.title is None {
                Err(ParseError::MissingField(PostField::Title))
            } else if raw.category is None {
                Err(ParseError::MissingField(PostField::Category))
            } else if raw.description is None {
                Err(ParseError::MissingField(PostField::Description))
            } else if raw.tags_bad {
                Err(ParseError::InvalidTag)
            } else {
                let lang = match raw.lang {
                    None => Some(Lang::Ja),
                    Some(l) => spec_lang_of_str(l),
                };
                if lang is None {
                    Err(ParseError::InvalidLang)
                } else if raw.created is Some && spec_date_with_format(raw.created->0) is None {
                    Err(ParseError::InvalidDate(PostField::CreatedAt))
                } else if raw.updated is Some && spec_date_with_format(raw.updated->0) is None {
                    Err(ParseError::InvalidDate(PostField::UpdatedAt))
                } else {
                    Ok(
                        FmView {
                            uuid: raw.uuid->0,
                            title: raw.title->0,
                            description: raw.description->0,
                            lang: lang->0,
                            category: raw.category->0,
                            tags: raw.tags,
                            created_at: match raw.created {
                                Some(c) => spec_date_with_format(c),
                                None => None,
                            },
                            updated_at: match raw.updated {
                                Some(u) => spec_date_with_format(u),
                                None => None,
                            },
                        },
                    )
                }
            }
        },
    }
}

/// Parses a front-matter block into a typed record.
pub fn parse_frontmatter(frontmatter: &str) -> (r: Result<FrontMatter, ParseError>)
    ensures
        match r {
            Ok(fm) => fm.wf() && spec_parse_frontmatter(frontmatter@) == Ok::<FmView, ParseError>(
                fm@,
            ),
            Err(e) => spec_parse_frontmatter(frontmatter@) == Err::<FmView, ParseError>(e),
        },
{
    let chars = str_chars(frontmatter);
    let lines = split_lines(&chars);
    let raw = match scan_lines(&lines) {
        Ok(raw) => raw,
        Err(e) => {
            return Err(e);
        },
    };
    let uuid = match raw.uuid {
        Some(u) => u,
        None => {
            return Err(ParseError::MissingField(PostField::Uuid));
        },
    };
    let title = match raw.title {
        Some(t) => t,
        None => {
            return Err(ParseError::MissingField(PostField::Title));
        },
    };
    let category = match raw.category {
        Some(c) => c,
        None => {
            return Err(ParseError::MissingField(PostField::Category));
        },
    };
    let description = match raw.description {
        Some(d) => d,
        None => {
            return Err(ParseError::MissingField(PostField::Description));
        },
    };
    if raw.tags_bad {
        return Err(ParseError::InvalidTag);
    }
    let lang = match &raw.lang {
        None => Lang::Ja,
        Some(l) => match Lang::from_str(l.as_str()) {
            Ok(lang) => lang,
            Err(_) => {
                return Err(ParseError::InvalidLang);
            },
        },
    };
    let created_at = match &raw.created {
        Some(c) => match DateTimeWithFormat::from_str(c.as_str()) {
            Ok(d) => Some(d),
            Err(_) => {
                return Err(ParseError::InvalidDate(PostField::CreatedAt));
            },
        },
        None => None,
    };
    let updated_at = match &raw.updated {
        Some(u) => match DateTimeWithFormat::from_str(u.as_str()) {
            Ok(d) => Some(d),
            Err(_) => {
                return Err(ParseError::InvalidDate(PostField::UpdatedAt));
            },
        },
        None => None,
    };
    let fm = FrontMatter {
        uuid,
        title,
        description,
        lang,
        category,
        tags: raw.tags,
        created_at,
        updated_at,
    };
    proof {
        assert(fm@ =~= spec_parse_frontmatter(frontmatter@)->Ok_0);
    }
    Ok(fm)
}

/// Splits a post file into its front-matter record and its body. A file
/// with no front-matter block yields no record and the whole text as body.
pub fn split_frontmatter_and_content(text: &str) -> (r: Result<
    (Option<FrontMatter>, String),
    ParseError,
>)
    ensures
        match spec_find_frontmatter_block(text@) {
            Some((a, b)) => match r {
                Ok((ofm, body)) => {
                    &&& match ofm {
                        Some(fm) => fm.wf() && spec_parse_frontmatter(text@.subrange(0, b)) == Ok::<
                            FmView,
                            ParseError,
                        >(fm@),
                        None => false,
                    }
                    &&& body@ == text@.subrange(b, text@.len() as int)
                },
                Err(e) => spec_parse_frontmatter(text@.subrange(0, b)) == Err::<
                    FmView,
                    ParseError,
                >(e),
            },
            None => match r {
                Ok((ofm, body)) => ofm is None && body@ == text@,
                Err(_) => false,
            },
        },
{
    match find_frontmatter_block(text) {
        Some((_, fm_end)) => {
            let chars = str_chars(text);
            let block = subrange_chars(&chars, 0, fm_end);
            let body = subrange_chars(&chars, fm_end, chars.len());
            let block_str = chars_string(&block);
            match parse_frontmatter(block_str.as_str()) {
                Ok(fm) => Ok((Some(fm), chars_string(&body))),
                Err(e) => Err(e),
            }
        },
        None => Ok((None, String::from_str(text))),
    }
}

/// Relies on `uuid::Uuid::new_v4` and `Uuid::to_string`: a fresh random
/// identifier, printed in the hyphenated form of 36 characters.
#[verifier::external_body]
pub(crate) fn fresh_uuid() -> (r: String)
    ensures
        r@.len() == 36,
        spec_line_safe(r@),
{
    uuid::Uuid::new_v4().to_string()
}

/// A field resolved from an explicit override, else the scanned value, else
/// a default.
pub open spec fn spec_resolve_str(
    ov: Option<Seq<char>>,
    raw: Option<Seq<char>>,
    dflt: Seq<char>,
) -> Seq<char> {
    if ov is Some {
        ov->0
    } else if raw is Some {
        raw->0
    } else {
        dflt
    }
}

/// What replacing yields: each field from its override if given, else from
/// the scanned text, else from its default — `fresh` standing for the
/// identifier generated when neither source has one.
pub open spec fn spec_replace(
    s: Seq<char>,
    ou: Option<Seq<char>>,
    ot: Option<Seq<char>>,
    oc: Option<Seq<char>>,
    ol: Option<Seq<char>>,
    od: Option<Seq<char>>,
    otags: Option<Seq<Seq<char>>>,
    ocr: Option<(UtcDateTime, NotationView)>,
    oup: Option<(UtcDateTime, NotationView)>,
    fresh: Seq<char>,
) -> Result<FmView, ParseError> {
    match spec_scan(spec_lines(s), 0, false, spec_empty_raw()) {
        Err(e) => Err(e),
        Ok(raw) => {
            let lang = spec_lang_of_str(spec_resolve_str(ol, raw.lang, "ja"@));
            if lang is None {
                Err(ParseError::InvalidLang)
            } else if otags is None && raw.tags_bad {
                Err(ParseError::InvalidTag)
            } else if ocr is None && raw.created is Some && spec_date_with_format(raw.created->0)
                is None {
                Err(ParseError::InvalidDate(PostField::CreatedAt))
            } else if oup is None && raw.updated is Some && spec_date_with_format(raw.updated->0)
                is None {
                Err(ParseError::InvalidDate(PostField::UpdatedAt))
            } else {
                Ok(
                    FmView {
                        uuid: spec_resolve_str(ou, raw.uuid, fresh),
                        title: spec_resolve_str(ot, raw.title, Seq::empty()),
                        description: spec_resolve_str(od, raw.description, Seq::empty()),
                        lang: lang->0,
                        category: spec_resolve_str(oc, raw.category, Seq::empty()),
                        tags: if otags is Some {
                            otags
                        } else {
                            raw.tags
                        },
                        created_at: if ocr is Some {
                            ocr
                        } else {
                            match raw.created {
                                Some(c) => spec_date_with_format(c),
                                None => None,
                            }
                        },
                        updated_at: if oup is Some {
                            oup
                        } else {
                            match raw.updated {
                                Some(u) => spec_date_with_format(u),
                                None => None,
                            }
                        },
                    },
                )
            }
        },
    }
}

/// Builds a record from a block and explicit overrides: each field from its
/// override if given, else from the block, else from its default — a fresh
/// identifier, empty strings, the `ja` language.
#[verifier::rlimit(100)]
pub fn replace_frontmatter(
    frontmatter: &str,
    uuid: &Option<String>,
    title: &Option<String>,
    category: &Option<String>,
    lang: &Option<String>,
    description: &Option<String>,
    tags: &Option<Vec<String>>,
    created_at: &Option<DateTimeWithFormat>,
    updated_at: &Option<DateTimeWithFormat>,
) -> (r: Result<FrontMatter, ParseError>)
    requires
        match created_at {
            Some(d) => d.wf(),
            None => true,
        },
        match updated_at {
            Some(d) => d.wf(),
            None => true,
        },
    ensures
        match r {
            Ok(fm) => {
                &&& fm.wf()
                &&& spec_replace(
                    frontmatter@,
                    opt_sv(*uuid),
                    opt_sv(*title),
                    opt_sv(*category),
                    opt_sv(*lang),
                    opt_sv(*description),
                    opt_tags_view(*tags),
                    opt_dtf_view(*created_at),
                    opt_dtf_view(*updated_at),
                    fm@.uuid,
                ) == Ok::<FmView, ParseError>(fm@)
            },
            Err(e) => spec_replace(
                frontmatter@,
                opt_sv(*uuid),
                opt_sv(*title),
                opt_sv(*category),
                opt_sv(*lang),
                opt_sv(*description),
                opt_tags_view(*tags),
                opt_dtf_view(*created_at),
                opt_dtf_view(*updated_at),
                Seq::empty(),
            ) == Err::<FmView, ParseError>(e),
        },
{
    let chars = str_chars(frontmatter);
    let lines = split_lines(&chars);
    let raw = match scan_lines(&lines) {
        Ok(raw) => raw,
        Err(e) => {
            return Err(e);
        },
    };
    let lang_str: String = match lang {
        Some(l) => l.clone(),
        None => match &raw.lang {
            Some(l) => l.clone(),
            None => String::from_str("ja"),
        },
    };
    let lang_val = match Lang::from_str(lang_str.as_str()) {
        Ok(l) => l,
        Err(_) => {
            return Err(ParseError::InvalidLang);
        },
    };
    let tags_val: Option<Vec<String>> = match tags {
        Some(ts) => Some(clone_strings_exact(ts)),
        None => {
            if raw.tags_bad {
                return Err(ParseError::InvalidTag);
            }
            raw.tags
        },
    };
    let created_val: Option<DateTimeWithFormat> = match created_at {
        Some(d) => Some(d.clone()),
        None => match &raw.created {
            Some(c) => match DateTimeWithFormat::from_str(c.as_str()) {
                Ok(d) => Some(d),
                Err(_) => {
                    return Err(ParseError::InvalidDate(PostField::CreatedAt));
                },
            },
            None => None,
        },
    };
    let updated_val: Option<DateTimeWithFormat> = match updated_at {
        Some(d) => Some(d.clone()),
        None => match &raw.updated {
            Some(u) => match DateTimeWithFormat::from_str(u.as_str()) {
                Ok(d) => Some(d),
                Err(_) => {
                    return Err(ParseError::InvalidDate(PostField::UpdatedAt));
                },
            },
            None => None,
        },
    };
    let uuid_val: String = match uuid {
        Some(u) => u.clone(),
        None => match raw.uuid {
            Some(u) => u,
            None => fresh_uuid(),
        },
    };
    let title_val: String = match title {
        Some(t) => t.clone(),
        None => match raw.title {
            Some(t) => t,
            None => String::new(),
        },
    };
    let category_val: String = match category {
        Some(c) => c.clone(),
        None => match raw.category {
            Some(c) => c,
            None => String::new(),
        },
    };
    let description_val: String = match description {
        Some(d) => d.clone(),
        None => match raw.description {
            Some(d) => d,
            None => String::new(),
        },
    };
    let fm = FrontMatter {
        uuid: uuid_val,
        title: title_val,
        description: description_val,
        lang: lang_val,
        category: category_val,
        tags: tags_val,
        created_at: created_val,
        updated_at: updated_val,
    };
    proof {
        assert(fm@ =~= spec_replace(
            frontmatter@,
            opt_sv(*uuid),
            opt_sv(*title),
            opt_sv(*category),
            opt_sv(*lang),
            opt_sv(*description),
            opt_tags_view(*tags),
            opt_dtf_view(*created_at),
            opt_dtf_view(*updated_at),
            fm@.uuid,
        )->Ok_0);
    }
    Ok(fm)
}

} // verus!
