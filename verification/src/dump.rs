//! Serializing records and posts back to file text, and the preparation
//! step that reconciles a post and re-serializes it.

use vstd::prelude::*;

use crate::chars::{chars_string, extend_str};
use crate::datetime::{
    spec_format_view, spec_notation_of_marker, DateTimeWithFormat, NotationView, UtcDateTime,
};
use crate::frontmatter::{FmView, FrontMatter};
use crate::lang::spec_lang_str;
use crate::post::{
    spec_doc_of_post, spec_equal_from_doc, spec_marker_of_view, spec_post_of_doc, Post, PostView,
};
use crate::query::{
    put, spec_idx_uuid, spec_insert_created, spec_insert_updated, spec_update_created,
    spec_update_updated, PostIndex, UpsertResult,
};
use crate::schema::IndexDoc;

verus! {

/// A scalar as serialized: written as it is, except that the empty text is
/// written as an empty double-quoted string.
pub open spec fn spec_quote_scalar(s: Seq<char>) -> Seq<char> {
    if s.len() == 0 {
        seq!['"', '"']
    } else {
        s
    }
}

/// The serialized tag entries, one `- ` line each.
pub open spec fn spec_tag_lines(ts: Seq<Seq<char>>) -> Seq<char>
    decreases ts.len(),
{
    if ts.len() == 0 {
        Seq::empty()
    } else {
        seq!['-', ' '] + spec_quote_scalar(ts.first()) + seq!['\n'] + spec_tag_lines(
            ts.drop_first(),
        )
    }
}

/// The serialized tags block, when tags are present.
pub open spec fn spec_dump_tags(tags: Option<Seq<Seq<char>>>) -> Seq<char> {
    match tags {
        None => Seq::empty(),
        Some(ts) => "tags:\n"@ + spec_tag_lines(ts),
    }
}

/// A serialized date line: the instant written in its own notation, always
/// double-quoted.
pub open spec fn spec_date_line(d: Option<(UtcDateTime, NotationView)>) -> Seq<char> {
    match d {
        None => Seq::empty(),
        Some((dt, nv)) => seq!['"'] + spec_format_view(nv, dt) + seq!['"', '\n'],
    }
}

/// The serialized front-matter block: both `---` markers, the fields in
/// their fixed order — identity, title, description, language, category,
/// then tags and the dates where present.
pub open spec fn spec_dump_matter(m: FmView) -> Seq<char> {
    "---\n"@ + "uuid: "@ + spec_quote_scalar(m.uuid) + seq!['\n'] + "title: "@ + spec_quote_scalar(
        m.title,
    ) + seq!['\n'] + "description: "@ + spec_quote_scalar(m.description) + seq!['\n'] + "lang: "@
        + spec_lang_str(m.lang) + seq!['\n'] + "category: "@ + spec_quote_scalar(m.category)
        + seq!['\n'] + spec_dump_tags(m.tags) + (match m.created_at {
        Some(_) => "created_at: "@,
        None => Seq::empty(),
    }) + spec_date_line(m.created_at) + (match m.updated_at {
        Some(_) => "updated_at: "@,
        None => Seq::empty(),
    }) + spec_date_line(m.updated_at) + "---\n"@
}

/// Appends a serialized scalar.
fn push_scalar(out: &mut Vec<char>, s: &String)
    ensures
        final(out)@ == old(out)@ + spec_quote_scalar(s@),
{
    if s.as_str().unicode_len() == 0 {
        out.push('"');
        out.push('"');
        assert(final(out)@ =~= old(out)@ + spec_quote_scalar(s@));
    } else {
        extend_str(out, s.as_str());
    }
}

/// Appends a serialized date line body.
fn push_date(out: &mut Vec<char>, d: &DateTimeWithFormat)
    requires
        d.wf(),
    ensures
        final(out)@ == old(out)@ + spec_date_line(
            Some((d.datetime, crate::datetime::notation_view(d.format))),
        ),
{
    out.push('"');
    let text = d.to_string();
    extend_str(out, text.as_str());
    out.push('"');
    out.push('\n');
    proof {
        crate::datetime::lemma_format_view_agrees(d.format, d.datetime);
        assert(final(out)@ =~= old(out)@ + spec_date_line(
            Some((d.datetime, crate::datetime::notation_view(d.format))),
        ));
    }
}

/// Serializes a front-matter record, markers included. The text fields
/// must hold no line breaks — the line-based form cannot carry them, and a
/// parsed record never does. (A custom date notation is written as its
/// pattern formats the instant.)
#[verifier::rlimit(100)]
pub fn dump_matter(matter: &FrontMatter) -> (r: String)
    requires
        matter.wf(),
        matter@.text_line_safe(),
    ensures
        r@ == spec_dump_matter(matter@),
{
    let mut out: Vec<char> = Vec::new();
    extend_str(&mut out, "---\n");
    extend_str(&mut out, "uuid: ");
    push_scalar(&mut out, &matter.uuid);
    out.push('\n');
    extend_str(&mut out, "title: ");
    push_scalar(&mut out, &matter.title);
    out.push('\n');
    extend_str(&mut out, "description: ");
    push_scalar(&mut out, &matter.description);
    out.push('\n');
    extend_str(&mut out, "lang: ");
    extend_str(&mut out, matter.lang.as_str());
    out.push('\n');
    extend_str(&mut out, "category: ");
    push_scalar(&mut out, &matter.category);
    out.push('\n');
    match &matter.tags {
        Some(ts) => {
            extend_str(&mut out, "tags:\n");
            let n = ts.len();
            let mut i: usize = 0;
            let ghost base = out@;
            proof {
                assert(out@ =~= base + spec_tag_lines_upto(crate::schema::strs_view(ts@), 0));
            }
            while i < n
                invariant
                    n == ts@.len(),
                    i <= n,
                    out@ == base + spec_tag_lines_upto(
                        crate::schema::strs_view(ts@),
                        i as int,
                    ),
                decreases n - i,
            {
                out.push('-');
                out.push(' ');
                push_scalar(&mut out, &ts[i]);
                out.push('\n');
                proof {
                    let tv = crate::schema::strs_view(ts@);
                    lemma_tag_lines_snoc(tv, i as int);
                    assert(out@ =~= base + spec_tag_lines_upto(tv, i + 1));
                }
                i = i + 1;
            }
            proof {
                lemma_tag_lines_full(crate::schema::strs_view(ts@));
            }
        },
        None => {},
    }
    match &matter.created_at {
        Some(d) => {
            extend_str(&mut out, "created_at: ");
            push_date(&mut out, d);
        },
        None => {},
    }
    match &matter.updated_at {
        Some(d) => {
            extend_str(&mut out, "updated_at: ");
            push_date(&mut out, d);
        },
        None => {},
    }
    extend_str(&mut out, "---\n");
    proof {
        assert(out@ =~= spec_dump_matter(matter@));
    }
    chars_string(&out)
}

/// The first `i` serialized tag entries.
pub open spec fn spec_tag_lines_upto(ts: Seq<Seq<char>>, i: int) -> Seq<char>
    decreases i,
{
    if i <= 0 {
        Seq::empty()
    } else {
        spec_tag_lines_upto(ts, i - 1) + seq!['-', ' '] + spec_quote_scalar(ts[i - 1])
            + seq!['\n']
    }
}

/// One more serialized entry extends the prefix.
proof fn lemma_tag_lines_snoc(ts: Seq<Seq<char>>, i: int)
    requires
        0 <= i < ts.len(),
    ensures
        spec_tag_lines_upto(ts, i + 1) == spec_tag_lines_upto(ts, i) + seq!['-', ' ']
            + spec_quote_scalar(ts[i]) + seq!['\n'],
{
}

/// The whole prefix is the whole block.
proof fn lemma_tag_lines_full(ts: Seq<Seq<char>>)
    ensures
        spec_tag_lines_upto(ts, ts.len() as int) == spec_tag_lines(ts),
    decreases ts.len(),
{
    if ts.len() == 0 {
        assert(spec_tag_lines_upto(ts, 0) =~= spec_tag_lines(ts));
    } else {
        lemma_tag_lines_prefix_drop(ts, ts.len() as int);
        lemma_tag_lines_full(ts.drop_first());
        assert(spec_tag_lines_upto(ts, ts.len() as int) =~= spec_tag_lines(ts));
    }
}

/// A prefix of the entries of `ts` serializes as the head entry and the
/// matching prefix of the remaining entries.
proof fn lemma_tag_lines_prefix_drop(ts: Seq<Seq<char>>, i: int)
    requires
        1 <= i <= ts.len(),
    ensures
        spec_tag_lines_upto(ts, i) =~= seq!['-', ' '] + spec_quote_scalar(ts[0]) + seq!['\n']
            + spec_tag_lines_upto(ts.drop_first(), i - 1),
    decreases i,
{
    if i == 1 {
        assert(spec_tag_lines_upto(ts, 0) =~= Seq::<char>::empty());
        assert(spec_tag_lines_upto(ts.drop_first(), 0) =~= Seq::<char>::empty());
        assert(spec_tag_lines_upto(ts, 1) =~= seq!['-', ' '] + spec_quote_scalar(ts[0])
            + seq!['\n'] + spec_tag_lines_upto(ts.drop_first(), 0));
    } else {
        lemma_tag_lines_prefix_drop(ts, i - 1);
        assert(ts.drop_first()[i - 2] == ts[i - 1]);
    }
}

/// The file name and the full file text of a post: the language and slug
/// give the relative path, the serialized record and the body the text.
pub fn dump_post(post: &Post) -> (r: (String, String))
    requires
        post.wf(),
        post@.matter.text_line_safe(),
    ensures
        r.0@ == spec_lang_str(post@.matter.lang) + seq!['/'] + post@.slug + ".md"@,
        r.1@ == spec_dump_matter(post@.matter) + post@.body,
{
    let matter_text = dump_matter(&post.matter);
    let mut out: Vec<char> = Vec::new();
    extend_str(&mut out, matter_text.as_str());
    extend_str(&mut out, post.body.as_str());
    let mut name: Vec<char> = Vec::new();
    extend_str(&mut name, post.matter.lang.as_str());
    name.push('/');
    extend_str(&mut name, post.slug.as_str());
    extend_str(&mut name, ".md");
    proof {
        assert(name@ =~= spec_lang_str(post@.matter.lang) + seq!['/'] + post@.slug + ".md"@);
    }
    (chars_string(&name), chars_string(&out))
}

/// Serializes a stored document back into a post file.
pub fn dump_doc(doc: &IndexDoc) -> (r: Result<(String, String), crate::frontmatter::ParseError>)
    requires
        doc.wf(),
        spec_post_of_doc(*doc).matter.text_line_safe(),
    ensures
        match r {
            Ok((name, text)) => {
                &&& crate::lang::spec_lang_of_str(doc.lang@) is Some
                &&& text@ == spec_dump_matter(crate::post::spec_post_of_doc(*doc).matter)
                    + doc.body@
            },
            Err(_) => crate::lang::spec_lang_of_str(doc.lang@) is None,
        },
{
    match Post::from_doc(doc) {
        Ok(post) => Ok(dump_post(&post)),
        Err(e) => Err(e),
    }
}

/// A fresh post file template: a new identity, empty prose fields, the
/// default language, and — when asked for — both dates set to the given
/// moment under the chosen notation.
pub fn template(with_date: &bool, datetime_format: &Option<String>, now: &UtcDateTime) -> (r:
    String)
    requires
        now.valid(),
    ensures
        exists|u: Seq<char>|
            #![trigger u.len()]
            u.len() == 36 && r@ == spec_dump_matter(
                spec_template_matter(
                    u,
                    *with_date,
                    match datetime_format {
                        Some(f) => Some(f@),
                        None => None,
                    },
                    *now,
                ),
            ),
{
    let fmt = match datetime_format {
        Some(s) => crate::datetime::DateTimeFormat::from_marker(s.as_str()),
        None => crate::datetime::DateTimeFormat::RFC3339,
    };
    let (created_at, updated_at) = if *with_date {
        let a = DateTimeWithFormat::new(*now, fmt.clone());
        let b = DateTimeWithFormat::new(*now, fmt);
        (Some(a), Some(b))
    } else {
        (None, None)
    };
    let matter = FrontMatter {
        uuid: crate::frontmatter::fresh_uuid(),
        title: String::new(),
        description: String::new(),
        lang: crate::lang::Lang::Ja,
        category: String::new(),
        tags: None,
        created_at,
        updated_at,
    };
    let r = dump_matter(&matter);
    proof {
        let fm = match datetime_format {
            Some(f) => Some(f@),
            None => None,
        };
        assert(matter@ =~= spec_template_matter(matter.uuid@, *with_date, fm, *now));
        assert(r@ == spec_dump_matter(spec_template_matter(matter.uuid@, *with_date, fm, *now)));
    }
    r
}

/// The record a template serializes, given the fresh identity it drew:
/// empty prose, default language, and the dates when asked for.
pub open spec fn spec_template_matter(
    uuid: Seq<char>,
    with_date: bool,
    fmt_marker: Option<Seq<char>>,
    now: UtcDateTime,
) -> FmView {
    let nv = match fmt_marker {
        Some(f) => spec_notation_of_marker(f),
        None => NotationView::R3339,
    };
    let d = if with_date {
        Some((now, nv))
    } else {
        None
    };
    FmView {
        uuid,
        title: Seq::empty(),
        description: Seq::empty(),
        lang: crate::lang::Lang::Ja,
        category: Seq::empty(),
        tags: None,
        created_at: d,
        updated_at: d,
    }
}

/// Reconciles one post against the store, exactly as `put` does. An
/// unchanged post yields `None`: the post and the store stay as they are.
/// A written post yields the re-serialized file text: the store holds
/// `put`'s insert or update result, the committed update date is injected
/// back into the post, and the text is the serialization of that post — so
/// the caller can rewrite the file.
pub fn prep_post_index(
    post: &mut Post,
    index: &mut PostIndex,
    skip_update_date: bool,
    now: &UtcDateTime,
) -> (r: Option<String>)
    requires
        old(post).wf(),
        old(post)@.matter.text_line_safe(),
        old(index).wf(),
        now.valid(),
        skip_update_date ==> old(post).matter.updated_at is Some,
    ensures
        final(index).wf(),
        final(post).wf(),
        ({
            let docs = old(index).docs@;
            let k = spec_idx_uuid(docs, old(post)@.matter.uuid, 0);
            if k < docs.len() && spec_equal_from_doc(old(post)@, spec_post_of_doc(docs[k])) {
                &&& r is None
                &&& *final(post) == *old(post)
                &&& final(index).docs@ == docs
            } else {
                match r {
                    Some(text) => {
                        let c = if k < docs.len() {
                            spec_update_created(old(post)@, docs[k])
                        } else {
                            spec_insert_created(old(post)@, *now)
                        };
                        let u = if k < docs.len() {
                            spec_update_updated(old(post)@, docs[k], skip_update_date, *now)
                        } else {
                            spec_insert_updated(old(post)@, *now)
                        };
                        let nd = final(index).docs@.last();
                        &&& final(index).docs@.len() > 0
                        &&& spec_doc_of_post(nd, old(post)@, c, u)
                        &&& final(index).docs@ =~= (if k < docs.len() {
                            docs.remove(k)
                        } else {
                            docs
                        }).push(nd)
                        &&& final(post)@ == (PostView {
                            matter: FmView {
                                updated_at: Some(
                                    (
                                        nd.updated_at,
                                        spec_notation_of_marker(nd.updated_at_format@),
                                    ),
                                ),
                                ..old(post)@.matter
                            },
                            ..old(post)@
                        })
                        &&& text@ == spec_dump_matter(final(post)@.matter) + final(post)@.body
                    },
                    None => false,
                }
            }
        }),
{
    let outcome = put(post, index, skip_update_date, now);
    let doc = match outcome {
        UpsertResult::Inserted(d) => d,
        UpsertResult::Updated(d) => d,
        UpsertResult::Skipped => {
            return None;
        },
    };
    proof {
        assert(index.docs@.last() == doc);
    }
    let updated_at = DateTimeWithFormat::new(
        doc.updated_at,
        crate::datetime::DateTimeFormat::from_marker(doc.updated_at_format.as_str()),
    );
    post.set_updated_at(Some(updated_at));
    let (_, new_markdown) = dump_post(post);
    proof {
        assert(post@ =~= (PostView {
            matter: FmView {
                updated_at: Some(
                    (doc.updated_at, spec_notation_of_marker(doc.updated_at_format@)),
                ),
                ..old(post)@.matter
            },
            ..old(post)@
        }));
    }
    Some(new_markdown)
}

} // verus!