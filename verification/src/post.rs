//! The post entity: a slug, a front-matter record, a raw body, and the
//! derived plain search text; and its two-way mapping to index documents.

use vstd::prelude::*;

use crate::chars::{chars_string, str_chars};
use crate::datetime::{
    notation_view, DateTimeFormat, DateTimeWithFormat, NotationView, UtcDateTime,
};
use crate::extract::{extract_text, spec_extract_text};
use crate::frontmatter::{
    opt_dtf_view, opt_tags_view, spec_equal_matter_from_doc, spec_find_frontmatter_block,
    spec_parse_frontmatter, split_frontmatter_and_content, FmView, FrontMatter, ParseError,
};
use crate::lang::{spec_lang_of_str, spec_lang_str, Lang};
use crate::schema::{spec_join_tags, strs_view, IndexDoc};

verus! {

// ---------------------------------------------------------------------------
// Slugs
// ---------------------------------------------------------------------------

/// The index of the last `.` in `s[..j]`, or `-1`.
pub open spec fn spec_rfind_dot(s: Seq<char>, j: int) -> int
    decreases j,
{
    if j <= 0 {
        -1
    } else if s[j - 1] == '.' {
        j - 1
    } else {
        spec_rfind_dot(s, j - 1)
    }
}

/// The slug a file name derives: the name with one trailing extension
/// stripped; a name with no extension, a leading-dot-only name, or the name
/// `..` stays whole.
pub open spec fn spec_slug_of(name: Seq<char>) -> Seq<char> {
    if name == ".."@ {
        name
    } else {
        let k = spec_rfind_dot(name, name.len() as int);
        if k <= 0 {
            name
        } else {
            name.subrange(0, k)
        }
    }
}

/// The index of the last `.` in `s[..j]`, or the length as a marker.
fn rfind_dot(s: &Vec<char>, j: usize) -> (r: Option<usize>)
    requires
        j <= s@.len(),
    ensures
        match r {
            Some(k) => k as int == spec_rfind_dot(s@, j as int) && k < j,
            None => spec_rfind_dot(s@, j as int) == -1,
        },
    decreases j,
{
    if j == 0 {
        None
    } else if s[j - 1] == '.' {
        Some(j - 1)
    } else {
        rfind_dot(s, j - 1)
    }
}

/// Derives a post's slug from its file name.
pub fn path_to_slug(file_name: &str) -> (r: String)
    ensures
        r@ == spec_slug_of(file_name@),
{
    proof {
        reveal_strlit("..");
    }
    let chars = str_chars(file_name);
    let n = chars.len();
    if n == 2 && chars[0] == '.' && chars[1] == '.' {
        assert(chars@ =~= ".."@);
        return String::from_str(file_name);
    }
    proof {
        if n != 2 {
            assert(file_name@ != ".."@);
        } else {
            assert(file_name@[0] == chars@[0] && file_name@[1] == chars@[1]);
        }
    }
    match rfind_dot(&chars, n) {
        Some(k) => {
            if k == 0 {
                String::from_str(file_name)
            } else {
                let stem = crate::frontmatter::subrange_chars(&chars, 0, k);
                chars_string(&stem)
            }
        },
        None => String::from_str(file_name),
    }
}

// ---------------------------------------------------------------------------
// The post entity
// ---------------------------------------------------------------------------

/// A post: its slug, front matter, raw body, and — when it was built from a
/// parsed file — the derived plain search text.
#[derive(Debug)]
pub struct Post {
    pub slug: String,
    pub matter: FrontMatter,
    pub body: String,
    pub raw_text: Option<String>,
}

/// The abstract value of a post.
#[verifier::ext_equal]
pub struct PostView {
    pub slug: Seq<char>,
    pub matter: FmView,
    pub body: Seq<char>,
    pub raw_text: Option<Seq<char>>,
}

impl View for Post {
    type V = PostView;

    open spec fn view(&self) -> PostView {
        PostView {
            slug: self.slug@,
            matter: self.matter@,
            body: self.body@,
            raw_text: crate::schema::opt_str_view(self.raw_text),
        }
    }
}

/// The post-level relaxed equality the upsert rests on: body, slug, and the
/// front matters under their relaxed equality. The derived search text is
/// never compared: a post rebuilt from the index does not carry one.
pub open spec fn spec_equal_from_doc(a: PostView, b: PostView) -> bool {
    a.body == b.body && a.slug == b.slug && spec_equal_matter_from_doc(a.matter, b.matter)
}

impl Post {
    /// Well-formedness: the front matter's dates are on the calendar.
    pub open spec fn wf(self) -> bool {
        self.matter.wf()
    }

    /// Builds a post and derives its plain search text from the body.
    pub fn new(slug: String, matter: FrontMatter, body: String) -> (r: Self)
        ensures
            r.slug == slug,
            r.matter == matter,
            r.body == body,
            crate::schema::opt_str_view(r.raw_text) == Some(spec_extract_text(body@)),
    {
        let raw_text = extract_text(body.as_str());
        Self { slug, matter, body, raw_text: Some(raw_text) }
    }

    /// The slug.
    pub fn slug(&self) -> (r: String)
        ensures
            r@ == self.slug@,
    {
        self.slug.clone()
    }

    /// The language.
    pub fn lang(&self) -> (r: Lang)
        ensures
            r == self.matter.lang,
    {
        self.matter.lang()
    }

    /// The stable identity.
    pub fn uuid(&self) -> (r: String)
        ensures
            r@ == self.matter.uuid@,
    {
        self.matter.uuid()
    }

    /// The raw body.
    pub fn body(&self) -> (r: String)
        ensures
            r@ == self.body@,
    {
        self.body.clone()
    }

    /// Replaces the body and re-derives the plain search text.
    pub fn set_body(&mut self, body: String)
        ensures
            final(self).slug == old(self).slug,
            final(self).matter == old(self).matter,
            final(self).body == body,
            crate::schema::opt_str_view(final(self).raw_text) == Some(spec_extract_text(body@)),
    {
        let raw_text = extract_text(body.as_str());
        self.body = body;
        self.raw_text = Some(raw_text);
    }

    /// The category.
    pub fn category(&self) -> (r: String)
        ensures
            r@ == self.matter.category@,
    {
        self.matter.category()
    }

    /// The tags.
    pub fn tags(&self) -> (r: Option<Vec<String>>)
        ensures
            opt_tags_view(r) == opt_tags_view(self.matter.tags),
    {
        self.matter.tags()
    }

    /// The title.
    pub fn title(&self) -> (r: String)
        ensures
            r@ == self.matter.title@,
    {
        self.matter.title()
    }

    /// The front-matter record.
    pub fn matter(&self) -> (r: FrontMatter)
        ensures
            r@ == self.matter@,
            r.created_at == self.matter.created_at,
            r.updated_at == self.matter.updated_at,
    {
        self.matter.clone()
    }

    /// The creation date, with its notation.
    pub fn created_at(&self) -> (r: Option<DateTimeWithFormat>)
        ensures
            r == self.matter.created_at,
    {
        self.matter.created_at()
    }

    /// The last-update date, with its notation.
    pub fn updated_at(&self) -> (r: Option<DateTimeWithFormat>)
        ensures
            r == self.matter.updated_at,
    {
        self.matter.updated_at()
    }

    /// Replaces the last-update date in place, so that a freshly committed
    /// value can be re-serialized to disk.
    pub fn set_updated_at(&mut self, updated_at: Option<DateTimeWithFormat>)
        ensures
            final(self).slug == old(self).slug,
            final(self).body == old(self).body,
            final(self).raw_text == old(self).raw_text,
            final(self).matter == (FrontMatter { updated_at, ..old(self).matter }),
    {
        self.matter.set_updated_at(updated_at);
    }

    /// The derived plain search text, when present.
    pub fn raw_text(&self) -> (r: Option<String>)
        ensures
            crate::schema::opt_str_view(r) == crate::schema::opt_str_view(self.raw_text),
    {
        match &self.raw_text {
            Some(t) => Some(t.clone()),
            None => None,
        }
    }

    /// The relaxed post equality the upsert rests on.
    pub fn equal_from_doc(&self, other: &Self) -> (r: bool)
        ensures
            r == spec_equal_from_doc(self@, other@),
    {
        crate::frontmatter::str_equal(&self.body, &other.body) && crate::frontmatter::str_equal(
            &self.slug,
            &other.slug,
        ) && self.matter.equal_matter_from_doc(&other.matter)
    }

    /// Parses a post from its file name and file text. The text must open
    /// with a front-matter block.
    pub fn from_text(file_name: &str, markdown_text: &str) -> (r: Result<Self, ParseError>)
        ensures
            match r {
                Ok(p) => {
                    &&& p.wf()
                    &&& p@.slug == spec_slug_of(file_name@)
                    &&& match spec_find_frontmatter_block(markdown_text@) {
                        Some((_, b)) => {
                            &&& spec_parse_frontmatter(markdown_text@.subrange(0, b)) == Ok::<
                                FmView,
                                ParseError,
                            >(p@.matter)
                            &&& p@.body == markdown_text@.subrange(b, markdown_text@.len() as int)
                            &&& p@.raw_text == Some(spec_extract_text(p@.body))
                        },
                        None => false,
                    }
                },
                Err(_) => match spec_find_frontmatter_block(markdown_text@) {
                    Some((_, b)) => spec_parse_frontmatter(markdown_text@.subrange(0, b)) is Err,
                    None => true,
                },
            },
    {
        let slug = path_to_slug(file_name);
        match split_frontmatter_and_content(markdown_text) {
            Ok((Some(matter), body)) => {
                let raw_text = extract_text(body.as_str());
                Ok(Self { slug, matter, body, raw_text: Some(raw_text) })
            },
            Ok((None, _)) => Err(ParseError::Malformed),
            Err(e) => Err(e),
        }
    }

    /// Rebuilds a post from an index document. The document carries no
    /// plain search text; both dates come back with the notation their
    /// markers name.
    pub fn from_doc(doc: &IndexDoc) -> (r: Result<Self, ParseError>)
        requires
            doc.wf(),
        ensures
            match r {
                Ok(p) => {
                    &&& spec_lang_of_str(doc.lang@) is Some
                    &&& p.wf()
                    &&& p@ == spec_post_of_doc(*doc)
                },
                Err(_) => spec_lang_of_str(doc.lang@) is None,
            },
    {
        let lang = match Lang::from_str(doc.lang.as_str()) {
            Ok(l) => l,
            Err(_) => {
                return Err(ParseError::InvalidLang);
            },
        };
        let tags: Option<Vec<String>> = if doc.tags.as_str().is_empty() {
            None
        } else {
            Some(split_all(&doc.tags))
        };
        let created_fmt = DateTimeFormat::from_marker(doc.created_at_format.as_str());
        let updated_fmt = DateTimeFormat::from_marker(doc.updated_at_format.as_str());
        let matter = FrontMatter {
            uuid: doc.uuid.clone(),
            title: doc.title.clone(),
            description: doc.description.clone(),
            lang,
            category: doc.category.clone(),
            tags,
            created_at: Some(DateTimeWithFormat::new(doc.created_at, created_fmt)),
            updated_at: Some(DateTimeWithFormat::new(doc.updated_at, updated_fmt)),
        };
        let p = Post {
            slug: doc.slug.clone(),
            matter,
            body: doc.body.clone(),
            raw_text: None,
        };
        proof {
            assert(p@ =~= spec_post_of_doc(*doc));
        }
        Ok(p)
    }

    /// Flattens the post into an index document under the two dates its
    /// caller resolved.
    pub fn to_doc(&self, created_at: &DateTimeWithFormat, updated_at: &DateTimeWithFormat) -> (r:
        IndexDoc)
        requires
            created_at.wf(),
            updated_at.wf(),
        ensures
            spec_doc_of_post(
                r,
                self@,
                (created_at.datetime, notation_view(created_at.format)),
                (updated_at.datetime, notation_view(updated_at.format)),
            ),
            r.wf(),
    {
        let tag_text: String = match &self.matter.tags {
            Some(ts) => crate::schema::join_tags(ts),
            None => String::new(),
        };
        let raw_text: Option<String> = match &self.raw_text {
            Some(t) => Some(t.clone()),
            None => None,
        };
        IndexDoc {
            uuid: self.matter.uuid.clone(),
            slug: self.slug.clone(),
            title: self.matter.title.clone(),
            description: self.matter.description.clone(),
            lang: self.matter.lang.to_string(),
            category: self.matter.category.clone(),
            tags: tag_text,
            body: self.body.clone(),
            raw_text,
            created_at: created_at.datetime(),
            updated_at: updated_at.datetime(),
            created_at_format: created_at.format().to_string(),
            updated_at_format: updated_at.format().to_string(),
        }
    }
}

/// The tokens of a joined tags string split on every space, empty tokens
/// kept (the form document reconstruction uses).
pub open spec fn spec_split_all_from(s: Seq<char>, i: int, cur: Seq<char>) -> Seq<Seq<char>>
    decreases s.len() - i,
{
    if i >= s.len() {
        seq![cur]
    } else if s[i] == ' ' {
        seq![cur] + spec_split_all_from(s, i + 1, Seq::empty())
    } else {
        spec_split_all_from(s, i + 1, cur.push(s[i]))
    }
}

/// The tokens of a joined tags string, empty tokens kept.
pub open spec fn spec_split_all(s: Seq<char>) -> Seq<Seq<char>> {
    spec_split_all_from(s, 0, Seq::empty())
}

/// Splits on every space, keeping empty tokens.
pub fn split_all(s: &String) -> (r: Vec<String>)
    ensures
        strs_view(r@) == spec_split_all(s@),
{
    let chars = str_chars(s.as_str());
    let n = chars.len();
    let mut out: Vec<String> = Vec::new();
    let mut cur: Vec<char> = Vec::new();
    let mut i: usize = 0;
    while i < n
        invariant
            n == chars@.len(),
            chars@ == s@,
            i <= n,
            spec_split_all(s@) == strs_view(out@) + spec_split_all_from(s@, i as int, cur@),
        decreases n - i,
    {
        let c = chars[i];
        if c == ' ' {
            let tok = chars_string(&cur);
            let ghost prev = out@;
            let ghost cur_old = cur@;
            out.push(tok);
            assert(strs_view(out@) =~= strs_view(prev) + seq![cur_old]);
            cur = Vec::new();
            proof {
                assert(cur@ =~= Seq::<char>::empty());
                assert((strs_view(prev) + seq![cur_old]) + spec_split_all_from(
                    s@,
                    i + 1,
                    Seq::empty(),
                ) =~= strs_view(prev) + (seq![cur_old] + spec_split_all_from(
                    s@,
                    i + 1,
                    Seq::empty(),
                )));
            }
        } else {
            cur.push(c);
        }
        i = i + 1;
    }
    let tok = chars_string(&cur);
    let ghost prev = out@;
    let ghost cur_old = cur@;
    out.push(tok);
    assert(strs_view(out@) =~= strs_view(prev) + seq![cur_old]);
    out
}

/// The post an index document reconstructs to.
pub open spec fn spec_post_of_doc(doc: IndexDoc) -> PostView {
    PostView {
        slug: doc.slug@,
        matter: FmView {
            uuid: doc.uuid@,
            title: doc.title@,
            description: doc.description@,
            lang: spec_lang_of_str(doc.lang@)->0,
            category: doc.category@,
            tags: if doc.tags@.len() == 0 {
                None
            } else {
                Some(spec_split_all(doc.tags@))
            },
            created_at: Some(
                (doc.created_at, crate::datetime::spec_notation_of_marker(doc.created_at_format@)),
            ),
            updated_at: Some(
                (doc.updated_at, crate::datetime::spec_notation_of_marker(doc.updated_at_format@)),
            ),
        },
        body: doc.body@,
        raw_text: None,
    }
}

/// The marker text of an abstract notation.
pub open spec fn spec_marker_of_view(nv: NotationView) -> Seq<char> {
    match nv {
        NotationView::R3339 => "RFC3329"@,
        NotationView::R2822 => "RFC2822"@,
        NotationView::Pattern(p) => p,
    }
}

/// Whether `d` is exactly the post `p` flattened under the resolved dates
/// `c` and `u`.
pub open spec fn spec_doc_of_post(
    d: IndexDoc,
    p: PostView,
    c: (UtcDateTime, NotationView),
    u: (UtcDateTime, NotationView),
) -> bool {
    &&& d.uuid@ == p.matter.uuid
    &&& d.slug@ == p.slug
    &&& d.title@ == p.matter.title
    &&& d.description@ == p.matter.description
    &&& d.lang@ == spec_lang_str(p.matter.lang)
    &&& d.category@ == p.matter.category
    &&& d.tags@ == match p.matter.tags {
        Some(ts) => spec_join_tags(ts),
        None => Seq::<char>::empty(),
    }
    &&& d.body@ == p.body
    &&& crate::schema::opt_str_view(d.raw_text) == p.raw_text
    &&& d.created_at == c.0
    &&& d.created_at_format@ == spec_marker_of_view(c.1)
    &&& d.updated_at == u.0
    &&& d.updated_at_format@ == spec_marker_of_view(u.1)
}

} // verus!