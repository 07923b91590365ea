//! Content extraction: comment stripping, and turning a Markdown body into
//! plain searchable text.

use vstd::prelude::*;

use crate::chars::{chars_string, str_chars};

verus! {

// ---------------------------------------------------------------------------
// Stripping HTML comments from a body
// ---------------------------------------------------------------------------

/// The comment-stripper's state: outside a comment, inside one, or just
/// past one, swallowing the whitespace that follows.
pub enum RcState {
    Ready,
    InComment,
    EndComment(int),
}

/// Whether `c` is ASCII whitespace.
pub open spec fn spec_is_ascii_ws(c: char) -> bool {
    c == ' ' || c == '\t' || c == '\n' || c == '\r' || c == '\u{0c}'
}

/// What the comment stripper emits from position `i` in state `st`. A
/// comment opener is only recognized when it stands more than four
/// characters before the end; after a closer, following whitespace is
/// swallowed up to the first non-blank character.
pub open spec fn spec_remove_comments_from(s: Seq<char>, i: int, st: RcState) -> Seq<char>
    decreases s.len() - i,
{
    if i >= s.len() {
        Seq::empty()
    } else {
        match st {
            RcState::Ready => {
                if i + 4 < s.len() && s.subrange(i, i + 4) == "<!--"@ {
                    spec_remove_comments_from(s, i + 1, RcState::InComment)
                } else {
                    seq![s[i]] + spec_remove_comments_from(s, i + 1, RcState::Ready)
                }
            },
            RcState::InComment => {
                if i + 3 < s.len() && s.subrange(i, i + 3) == "-->"@ {
                    spec_remove_comments_from(s, i + 1, RcState::EndComment(0))
                } else {
                    spec_remove_comments_from(s, i + 1, RcState::InComment)
                }
            },
            RcState::EndComment(cur) => {
                if cur >= 1 {
                    if i + 1 < s.len() {
                        if !spec_is_ascii_ws(s[i + 1]) {
                            spec_remove_comments_from(s, i + 1, RcState::Ready)
                        } else {
                            spec_remove_comments_from(s, i + 1, RcState::EndComment(cur + 1))
                        }
                    } else {
                        spec_remove_comments_from(s, i + 1, RcState::Ready)
                    }
                } else {
                    spec_remove_comments_from(s, i + 1, RcState::EndComment(cur + 1))
                }
            },
        }
    }
}

/// The text with `<!-- -->` comments removed, and the blank run after each
/// comment swallowed.
pub open spec fn spec_remove_comments(s: Seq<char>) -> Seq<char> {
    spec_remove_comments_from(s, 0, RcState::Ready)
}

/// Whether `c` is ASCII whitespace.
pub fn is_ascii_ws(c: char) -> (r: bool)
    ensures
        r == spec_is_ascii_ws(c),
{
    c == ' ' || c == '\t' || c == '\n' || c == '\r' || c == '\u{0c}'
}

/// Whether `"<!--"` begins at `i`.
fn comment_open_at(s: &Vec<char>, i: usize) -> (r: bool)
    requires
        i + 4 <= s@.len(),
    ensures
        r == (s@.subrange(i as int, i as int + 4) == "<!--"@),
{
    proof {
        reveal_strlit("<!--");
    }
    let n = s.len();
    let r = s[i] == '<' && s[i + 1] == '!' && s[i + 2] == '-' && s[i + 3] == '-';
    proof {
        if r {
            assert(s@.subrange(i as int, i as int + 4) =~= "<!--"@);
        } else {
            assert(s@.subrange(i as int, i as int + 4)[0] == s@[i as int]);
            assert(s@.subrange(i as int, i as int + 4)[1] == s@[i as int + 1]);
            assert(s@.subrange(i as int, i as int + 4)[2] == s@[i as int + 2]);
            assert(s@.subrange(i as int, i as int + 4)[3] == s@[i as int + 3]);
        }
    }
    r
}

/// Whether `"-->"` begins at `i`.
fn comment_close_at(s: &Vec<char>, i: usize) -> (r: bool)
    requires
        i + 3 <= s@.len(),
    ensures
        r == (s@.subrange(i as int, i as int + 3) == "-->"@),
{
    proof {
        reveal_strlit("-->");
    }
    let n = s.len();
    let r = s[i] == '-' && s[i + 1] == '-' && s[i + 2] == '>';
    proof {
        if r {
            assert(s@.subrange(i as int, i as int + 3) =~= "-->"@);
        } else {
            assert(s@.subrange(i as int, i as int + 3)[0] == s@[i as int]);
            assert(s@.subrange(i as int, i as int + 3)[1] == s@[i as int + 1]);
            assert(s@.subrange(i as int, i as int + 3)[2] == s@[i as int + 2]);
        }
    }
    r
}

/// Removes `<!-- -->` comments, swallowing the blank run after each.
pub fn remove_comments(text: &str) -> (r: String)
    ensures
        r@ == spec_remove_comments(text@),
{
    let chars = str_chars(text);
    let n = chars.len();
    let mut out: Vec<char> = Vec::new();
    let mut in_comment: bool = false;
    let mut end_cur: Option<usize> = None;
    let mut i: usize = 0;
    while i < n
        invariant
            n == chars@.len(),
            i <= n,
            match end_cur {
                Some(c) => !in_comment && c <= i,
                None => true,
            },
            spec_remove_comments(chars@) == out@ + spec_remove_comments_from(
                chars@,
                i as int,
                match end_cur {
                    Some(c) => RcState::EndComment(c as int),
                    None => if in_comment {
                        RcState::InComment
                    } else {
                        RcState::Ready
                    },
                },
            ),
        decreases n - i,
    {
        if in_comment {
            if n - i > 3 && comment_close_at(&chars, i) {
                in_comment = false;
                end_cur = Some(0);
            }
        } else if let Some(cur) = end_cur {
            if cur >= 1 {
                if i + 1 < n {
                    if !is_ascii_ws(chars[i + 1]) {
                        end_cur = None;
                    } else {
                        end_cur = Some(cur + 1);
                    }
                } else {
                    end_cur = None;
                }
            } else {
                end_cur = Some(cur + 1);
            }
        } else {
            if n - i > 4 && comment_open_at(&chars, i) {
                in_comment = true;
            } else {
                let ghost prev = out@;
                out.push(chars[i]);
                proof {
                    assert(out@ =~= prev + seq![chars@[i as int]]);
                    assert((prev + seq![chars@[i as int]]) + spec_remove_comments_from(
                        chars@,
                        i + 1,
                        RcState::Ready,
                    ) =~= prev + (seq![chars@[i as int]] + spec_remove_comments_from(
                        chars@,
                        i + 1,
                        RcState::Ready,
                    )));
                }
            }
        }
        i = i + 1;
    }
    chars_string(&out)
}

// ---------------------------------------------------------------------------
// Flattening embedded HTML into its text nodes
// ---------------------------------------------------------------------------

/// Whitespace-trimmed text, or nothing when blank.
pub open spec fn spec_flush(cur: Seq<char>) -> Seq<Seq<char>> {
    let t = spec_trim_ws(cur);
    if t.len() > 0 {
        seq![t]
    } else {
        Seq::empty()
    }
}

/// The first non-whitespace position at or after `i`.
pub open spec fn spec_skip_ws(s: Seq<char>, i: int) -> int
    decreases s.len() - i,
{
    if i >= s.len() {
        s.len() as int
    } else if spec_is_ascii_ws(s[i]) {
        spec_skip_ws(s, i + 1)
    } else {
        i
    }
}

/// The end of `s[..j]` with trailing whitespace dropped.
pub open spec fn spec_rskip_ws(s: Seq<char>, j: int) -> int
    decreases j,
{
    if j <= 0 {
        0
    } else if spec_is_ascii_ws(s[j - 1]) {
        spec_rskip_ws(s, j - 1)
    } else {
        j
    }
}

/// `s` with leading and trailing whitespace dropped.
pub open spec fn spec_trim_ws(s: Seq<char>) -> Seq<char> {
    let a = spec_skip_ws(s, 0);
    let b = spec_rskip_ws(s, s.len() as int);
    if a >= b {
        Seq::empty()
    } else {
        s.subrange(a, b)
    }
}

/// Where the HTML walker stands: in text, inside a tag, or inside a
/// comment.
pub enum HtmlMode {
    Text,
    Tag,
    Comment,
}

/// The text nodes of an HTML run, in order: the whitespace-trimmed,
/// non-blank text between tags; tags and `<!-- -->` comments produce
/// nothing, and an unclosed tag or comment swallows the rest of the run.
pub open spec fn spec_html_from(h: Seq<char>, i: int, mode: HtmlMode, cur: Seq<char>) -> Seq<
    Seq<char>,
>
    decreases h.len() - i,
{
    if i >= h.len() {
        spec_flush(cur)
    } else {
        match mode {
            HtmlMode::Text => {
                if h[i] == '<' {
                    if i + 4 <= h.len() && h.subrange(i, i + 4) == "<!--"@ {
                        spec_flush(cur) + spec_html_from(h, i + 4, HtmlMode::Comment, Seq::empty())
                    } else {
                        spec_flush(cur) + spec_html_from(h, i + 1, HtmlMode::Tag, Seq::empty())
                    }
                } else {
                    spec_html_from(h, i + 1, HtmlMode::Text, cur.push(h[i]))
                }
            },
            HtmlMode::Tag => {
                if h[i] == '>' {
                    spec_html_from(h, i + 1, HtmlMode::Text, Seq::empty())
                } else {
                    spec_html_from(h, i + 1, HtmlMode::Tag, Seq::empty())
                }
            },
            HtmlMode::Comment => {
                if i + 3 <= h.len() && h.subrange(i, i + 3) == "-->"@ {
                    spec_html_from(h, i + 3, HtmlMode::Text, Seq::empty())
                } else {
                    spec_html_from(h, i + 1, HtmlMode::Comment, Seq::empty())
                }
            },
        }
    }
}

/// The text nodes of an HTML run.
pub open spec fn spec_html_texts(h: Seq<char>) -> Seq<Seq<char>> {
    spec_html_from(h, 0, HtmlMode::Text, Seq::empty())
}

/// The first non-whitespace position at or after `i`.
pub fn skip_ws(s: &Vec<char>, i: usize) -> (r: usize)
    requires
        i <= s@.len(),
    ensures
        r as int == spec_skip_ws(s@, i as int),
        i <= r <= s@.len(),
    decreases s@.len() - i,
{
    let n = s.len();
    if i >= n {
        n
    } else if is_ascii_ws(s[i]) {
        skip_ws(s, i + 1)
    } else {
        i
    }
}

/// The end of `s[..j]` with trailing whitespace dropped.
pub fn rskip_ws(s: &Vec<char>, j: usize) -> (r: usize)
    requires
        j <= s@.len(),
    ensures
        r as int == spec_rskip_ws(s@, j as int),
        r <= j,
    decreases j,
{
    if j == 0 {
        0
    } else if is_ascii_ws(s[j - 1]) {
        rskip_ws(s, j - 1)
    } else {
        j
    }
}

/// `s` with leading and trailing whitespace dropped.
pub fn trim_ws_chars(s: &Vec<char>) -> (r: Vec<char>)
    ensures
        r@ == spec_trim_ws(s@),
{
    let n = s.len();
    let a = skip_ws(s, 0);
    let b = rskip_ws(s, n);
    if a >= b {
        let empty: Vec<char> = Vec::new();
        assert(empty@ =~= Seq::<char>::empty());
        empty
    } else {
        crate::frontmatter::subrange_chars(s, a, b)
    }
}

/// Flushes the trimmed text run into `out`, when it is not blank.
fn flush_run(out: &mut Vec<String>, cur: &Vec<char>)
    ensures
        final(out)@.map_values(|t: String| t@) == old(out)@.map_values(|t: String| t@)
            + spec_flush(cur@),
{
    let t = trim_ws_chars(cur);
    if t.len() > 0 {
        let ghost prev = out@;
        out.push(chars_string(&t));
        assert(out@.map_values(|x: String| x@) =~= prev.map_values(|x: String| x@) + seq![t@]);
    } else {
        assert(out@.map_values(|x: String| x@) =~= out@.map_values(|x: String| x@)
            + spec_flush(cur@));
    }
}

/// The text nodes of the concatenation of consecutive HTML fragments,
/// tokenized in one pass so that a node split across fragment boundaries is
/// still recovered whole.
pub fn extract_inner_text(html_values: &Vec<String>) -> (r: Vec<String>)
    ensures
        r@.map_values(|t: String| t@) == spec_html_texts(
            spec_concat_strs(html_values@.map_values(|t: String| t@)),
        ),
{
    let mut h: Vec<char> = Vec::new();
    let m = html_values.len();
    let mut k: usize = 0;
    proof {
        assert(h@ =~= spec_concat_strs(
            html_values@.map_values(|t: String| t@).subrange(0, 0),
        ));
    }
    while k < m
        invariant
            m == html_values@.len(),
            k <= m,
            h@ == spec_concat_strs(
                html_values@.map_values(|t: String| t@).subrange(0, k as int),
            ),
        decreases m - k,
    {
        crate::chars::extend_str(&mut h, html_values[k].as_str());
        proof {
            let vs = html_values@.map_values(|t: String| t@);
            lemma_concat_push(vs.subrange(0, k as int), vs[k as int]);
            assert(vs.subrange(0, k + 1) =~= vs.subrange(0, k as int).push(vs[k as int]));
        }
        k = k + 1;
    }
    proof {
        let vs = html_values@.map_values(|t: String| t@);
        assert(vs.subrange(0, m as int) =~= vs);
    }
    html_texts(&h)
}

/// The concatenation of a sequence of texts.
pub open spec fn spec_concat_strs(ts: Seq<Seq<char>>) -> Seq<char>
    decreases ts.len(),
{
    if ts.len() == 0 {
        Seq::empty()
    } else {
        spec_concat_strs(ts.drop_last()) + ts.last()
    }
}

/// Concatenation grows one text at a time.
pub proof fn lemma_concat_push(ts: Seq<Seq<char>>, t: Seq<char>)
    ensures
        spec_concat_strs(ts.push(t)) == spec_concat_strs(ts) + t,
{
    assert(ts.push(t).drop_last() =~= ts);
    assert(ts.push(t).last() == t);
}

/// The text nodes of one HTML run.
pub fn html_texts(h: &Vec<char>) -> (r: Vec<String>)
    ensures
        r@.map_values(|t: String| t@) == spec_html_texts(h@),
{
    let n = h.len();
    let mut out: Vec<String> = Vec::new();
    let mut cur: Vec<char> = Vec::new();
    let mut mode = HtmlMode::Text;
    let mut i: usize = 0;
    proof {
        assert(out@.map_values(|t: String| t@) =~= Seq::<Seq<char>>::empty());
        assert(Seq::<Seq<char>>::empty() + spec_html_from(h@, 0, HtmlMode::Text, Seq::empty())
            =~= spec_html_from(h@, 0, HtmlMode::Text, Seq::empty()));
    }
    while i < n
        invariant
            n == h@.len(),
            i <= n,
            match mode {
                HtmlMode::Text => true,
                _ => cur@ == Seq::<char>::empty(),
            },
            spec_html_texts(h@) == out@.map_values(|t: String| t@) + spec_html_from(
                h@,
                i as int,
                mode,
                cur@,
            ),
        decreases n - i,
    {
        let ghost outv0 = out@.map_values(|t: String| t@);
        match mode {
            HtmlMode::Text => {
                let c = h[i];
                if c == '<' {
                    let ghost cur0 = cur@;
                    let is_comment = n - i >= 4 && comment_open_at(h, i);
                    flush_run(&mut out, &cur);
                    cur = Vec::new();
                    if is_comment {
                        mode = HtmlMode::Comment;
                        i = i + 4;
                    } else {
                        mode = HtmlMode::Tag;
                        i = i + 1;
                    }
                    proof {
                        assert(cur@ =~= Seq::<char>::empty());
                        assert((outv0 + spec_flush(cur0)) + spec_html_from(h@, i as int, mode, cur@)
                            =~= outv0 + (spec_flush(cur0) + spec_html_from(
                            h@,
                            i as int,
                            mode,
                            cur@,
                        )));
                    }
                } else {
                    cur.push(c);
                    i = i + 1;
                }
            },
            HtmlMode::Tag => {
                if h[i] == '>' {
                    mode = HtmlMode::Text;
                }
                i = i + 1;
            },
            HtmlMode::Comment => {
                if n - i >= 3 && comment_close_at(h, i) {
                    mode = HtmlMode::Text;
                    i = i + 3;
                } else {
                    i = i + 1;
                }
            },
        }
    }
    flush_run(&mut out, &cur);
    out
}

// ---------------------------------------------------------------------------
// From Markdown to plain text
// ---------------------------------------------------------------------------

/// The Markdown event stream of a text: a function of the text alone. Each
/// event is a kind — 0 for a text node, 1 for an HTML node, 2 for anything
/// else — and the node's text.
pub uninterp spec fn md_events_of(s: Seq<char>) -> Seq<(u8, Seq<char>)>;

/// Relies on `pulldown_cmark::Parser::new_ext` with no extensions: the
/// event stream depends on the text alone. Each event is mapped to its
/// kind and text, one arm per kind the extraction reads.
#[verifier::external_body]
fn markdown_events(s: &str) -> (r: Vec<(u8, String)>)
    ensures
        r@.map_values(|p: (u8, String)| (p.0, p.1@)) == md_events_of(s@),
{
    pulldown_cmark::Parser::new_ext(s, pulldown_cmark::Options::empty()).map(
        |e| match e {
            pulldown_cmark::Event::Text(t) => (0u8, t.to_string()),
            pulldown_cmark::Event::Html(t) => (1u8, t.to_string()),
            _ => (2u8, String::new()),
        },
    ).collect()
}

/// The plain-text fragments of an event stream, in document order: each
/// text node as written, and each run of consecutive HTML nodes flattened
/// to its text nodes in one pass.
pub open spec fn spec_extract_frags(
    evs: Seq<(u8, Seq<char>)>,
    i: int,
    in_html: bool,
    hbuf: Seq<char>,
) -> Seq<Seq<char>>
    decreases evs.len() - i,
{
    if i >= evs.len() {
        if in_html {
            spec_html_texts(hbuf)
        } else {
            Seq::empty()
        }
    } else {
        let k = evs[i].0;
        let t = evs[i].1;
        if k == 0 {
            if in_html {
                spec_html_texts(hbuf) + (seq![t] + spec_extract_frags(
                    evs,
                    i + 1,
                    false,
                    Seq::empty(),
                ))
            } else {
                seq![t] + spec_extract_frags(evs, i + 1, false, Seq::empty())
            }
        } else if k == 1 {
            spec_extract_frags(evs, i + 1, true, hbuf + t)
        } else {
            spec_extract_frags(evs, i + 1, in_html, hbuf)
        }
    }
}

/// The fragments joined with newlines.
pub open spec fn spec_join_lines(ts: Seq<Seq<char>>) -> Seq<char>
    decreases ts.len(),
{
    if ts.len() == 0 {
        Seq::empty()
    } else if ts.len() == 1 {
        ts[0]
    } else {
        ts[0] + seq!['\n'] + spec_join_lines(ts.drop_first())
    }
}

/// Appending one more fragment appends a newline and the fragment (just the
/// fragment when the list was empty).
pub proof fn lemma_join_lines_push(v: Seq<Seq<char>>, t: Seq<char>)
    ensures
        spec_join_lines(v.push(t)) == if v.len() == 0 {
            t
        } else {
            spec_join_lines(v) + seq!['\n'] + t
        },
    decreases v.len(),
{
    if v.len() == 0 {
        assert(v.push(t)[0] == t);
    } else if v.len() == 1 {
        assert(v.push(t).drop_first() =~= seq![t]);
        assert(spec_join_lines(seq![t]) == t);
        assert(v.push(t)[0] == v[0]);
    } else {
        assert(v.push(t).drop_first() =~= v.drop_first().push(t));
        lemma_join_lines_push(v.drop_first(), t);
    }
}

/// Joins fragments with newlines.
pub fn join_lines(ts: &Vec<String>) -> (r: String)
    ensures
        r@ == spec_join_lines(ts@.map_values(|t: String| t@)),
{
    let n = ts.len();
    let mut out: Vec<char> = Vec::new();
    let mut i: usize = 0;
    while i < n
        invariant
            n == ts@.len(),
            i <= n,
            out@ == spec_join_lines(ts@.map_values(|t: String| t@).subrange(0, i as int)),
        decreases n - i,
    {
        if i > 0 {
            out.push('\n');
        }
        crate::chars::extend_str(&mut out, ts[i].as_str());
        proof {
            let v = ts@.map_values(|t: String| t@);
            lemma_join_lines_push(v.subrange(0, i as int), v[i as int]);
            assert(v.subrange(0, i + 1) =~= v.subrange(0, i as int).push(v[i as int]));
        }
        i = i + 1;
    }
    proof {
        assert(ts@.map_values(|t: String| t@).subrange(0, n as int) =~= ts@.map_values(
            |t: String| t@,
        ));
    }
    crate::chars::chars_string(&out)
}

/// Appends every fragment of `src`.
fn extend_strings(out: &mut Vec<String>, src: Vec<String>)
    ensures
        final(out)@.map_values(|t: String| t@) == old(out)@.map_values(|t: String| t@)
            + src@.map_values(|t: String| t@),
{
    let n = src.len();
    let mut i: usize = 0;
    while i < n
        invariant
            n == src@.len(),
            i <= n,
            out@.map_values(|t: String| t@) == old(out)@.map_values(|t: String| t@)
                + src@.map_values(|t: String| t@).subrange(0, i as int),
        decreases n - i,
    {
        let ghost prev = out@.map_values(|t: String| t@);
        out.push(src[i].clone());
        proof {
            let sv = src@.map_values(|t: String| t@);
            assert(out@.map_values(|t: String| t@) =~= prev.push(sv[i as int]));
            assert(sv.subrange(0, i + 1) =~= sv.subrange(0, i as int).push(sv[i as int]));
            assert(prev.push(sv[i as int]) =~= (old(out)@.map_values(|t: String| t@)
                + sv.subrange(0, i as int)).push(sv[i as int]));
            assert((old(out)@.map_values(|t: String| t@) + sv.subrange(0, i as int)).push(
                sv[i as int],
            ) =~= old(out)@.map_values(|t: String| t@) + sv.subrange(0, i + 1));
        }
        i = i + 1;
    }
    proof {
        assert(src@.map_values(|t: String| t@).subrange(0, n as int) =~= src@.map_values(
            |t: String| t@,
        ));
    }
}

/// The plain searchable text of a Markdown body: text nodes as written,
/// embedded HTML flattened to its text nodes, comments dropped, fragments
/// joined with newlines. Total: malformed markup yields fewer fragments,
/// never an error.
pub fn extract_text(markdown_text: &str) -> (r: String)
    ensures
        r@ == spec_extract_text(markdown_text@),
{
    let evs = markdown_events(markdown_text);
    let ghost ev = evs@.map_values(|p: (u8, String)| (p.0, p.1@));
    let n = evs.len();
    let mut frags: Vec<String> = Vec::new();
    let mut in_html: bool = false;
    let mut hbuf: Vec<char> = Vec::new();
    let mut i: usize = 0;
    proof {
        assert(frags@.map_values(|t: String| t@) =~= Seq::<Seq<char>>::empty());
        assert(hbuf@ =~= Seq::<char>::empty());
        assert(Seq::<Seq<char>>::empty() + spec_extract_frags(ev, 0, false, Seq::empty())
            =~= spec_extract_frags(ev, 0, false, Seq::empty()));
    }
    while i < n
        invariant
            n == evs@.len(),
            ev == evs@.map_values(|p: (u8, String)| (p.0, p.1@)),
            i <= n,
            !in_html ==> hbuf@ == Seq::<char>::empty(),
            spec_extract_frags(ev, 0, false, Seq::empty()) == frags@.map_values(|t: String| t@)
                + spec_extract_frags(ev, i as int, in_html, hbuf@),
        decreases n - i,
    {
        proof {
            assert(ev[i as int] == (evs@[i as int].0, evs@[i as int].1@));
        }
        let ghost frags0 = frags@.map_values(|t: String| t@);
        let ghost hbuf0 = hbuf@;
        let ghost in_html0 = in_html;
        let kind = evs[i].0;
        if kind == 0 {
            if in_html {
                let inner = html_texts(&hbuf);
                extend_strings(&mut frags, inner);
                hbuf = Vec::new();
                in_html = false;
            }
            let ghost frags1 = frags@.map_values(|t: String| t@);
            frags.push(evs[i].1.clone());
            proof {
                assert(frags@.map_values(|t: String| t@) =~= frags1.push(ev[i as int].1));
                assert(hbuf@ =~= Seq::<char>::empty());
                if in_html0 {
                    assert((frags0 + spec_html_texts(hbuf0)).push(ev[i as int].1)
                        + spec_extract_frags(ev, i + 1, false, Seq::empty()) =~= frags0 + (
                    spec_html_texts(hbuf0) + (seq![ev[i as int].1] + spec_extract_frags(
                        ev,
                        i + 1,
                        false,
                        Seq::empty(),
                    ))));
                } else {
                    assert(frags0.push(ev[i as int].1) + spec_extract_frags(
                        ev,
                        i + 1,
                        false,
                        Seq::empty(),
                    ) =~= frags0 + (seq![ev[i as int].1] + spec_extract_frags(
                        ev,
                        i + 1,
                        false,
                        Seq::empty(),
                    )));
                }
            }
        } else if kind == 1 {
            crate::chars::extend_str(&mut hbuf, evs[i].1.as_str());
            in_html = true;
            proof {
                assert(hbuf@ =~= hbuf0 + ev[i as int].1);
            }
        }
        i = i + 1;
    }
    if in_html {
        let inner = html_texts(&hbuf);
        extend_strings(&mut frags, inner);
    }
    join_lines(&frags)
}

/// The plain searchable text of a Markdown body.
pub open spec fn spec_extract_text(s: Seq<char>) -> Seq<char> {
    spec_join_lines(spec_extract_frags(md_events_of(s), 0, false, Seq::empty()))
}

} // verus!
