//! The upsert engine and the query layer over the committed document store.
//!
//! The store models the committed state of the index: a sequence of
//! documents with at most one per identity. The engine that persists and
//! searches it on disk is outside; every decision about its contents is
//! made here. Free-text search over the store is ASCII-case-folded
//! substring containment in store order: an engine's relevance ranking and
//! query syntax are its own and are not modeled, so a query here is plain
//! text and never malformed.

use vstd::prelude::*;

use crate::datetime::{
    spec_notation_of_marker, DateTimeFormat, DateTimeWithFormat, NotationView, OrderBy,
    UtcDateTime,
};
use crate::lang::spec_lang_of_str;
use crate::post::{
    spec_doc_of_post, spec_equal_from_doc, spec_marker_of_view, spec_post_of_doc, spec_split_all,
    spec_split_all_from, Post, PostView,
};
use crate::schema::{spec_join_tags, IndexDoc, PostField};

verus! {

/// A single document of a store, judged on its own: its dates are on the
/// calendar and its language code is in the closed set.
pub open spec fn doc_ok(d: IndexDoc) -> bool {
    d.wf() && spec_lang_of_str(d.lang@) is Some
}

/// The committed document store: at most one document per identity.
#[derive(Debug)]
pub struct PostIndex {
    pub docs: Vec<IndexDoc>,
}

impl PostIndex {
    /// Well-formedness: identities are unique and every document is sound.
    pub open spec fn wf(self) -> bool {
        &&& forall|i: int, j: int|
            0 <= i < j < self.docs@.len() ==> (#[trigger] self.docs@[i]).uuid@ != (
            #[trigger] self.docs@[j]).uuid@
        &&& forall|i: int| 0 <= i < self.docs@.len() ==> doc_ok(#[trigger] self.docs@[i])
    }

    /// An empty store.
    pub fn new() -> (r: Self)
        ensures
            r.docs@ =~= Seq::<IndexDoc>::empty(),
            r.wf(),
    {
        PostIndex { docs: Vec::new() }
    }

    /// The number of committed documents.
    pub fn len(&self) -> (r: usize)
        ensures
            r == self.docs@.len(),
    {
        self.docs.len()
    }
}

/// The first position at or after `i` holding the identity `u`, or the
/// length when none does.
pub open spec fn spec_idx_uuid(docs: Seq<IndexDoc>, u: Seq<char>, i: int) -> int
    decreases docs.len() - i,
{
    if i >= docs.len() {
        docs.len() as int
    } else if docs[i].uuid@ == u {
        i
    } else {
        spec_idx_uuid(docs, u, i + 1)
    }
}

/// Whether some document holds the identity `u`.
pub open spec fn spec_uuid_present(docs: Seq<IndexDoc>, u: Seq<char>) -> bool {
    spec_idx_uuid(docs, u, 0) < docs.len()
}

/// The found position is within bounds, holds the identity, and no earlier
/// position from `i` on does.
pub proof fn lemma_idx_uuid(docs: Seq<IndexDoc>, u: Seq<char>, i: int)
    requires
        0 <= i <= docs.len(),
    ensures
        i <= spec_idx_uuid(docs, u, i) <= docs.len(),
        spec_idx_uuid(docs, u, i) < docs.len() ==> docs[spec_idx_uuid(docs, u, i)].uuid@ == u,
        forall|j: int| i <= j < spec_idx_uuid(docs, u, i) ==> (#[trigger] docs[j]).uuid@ != u,
    decreases docs.len() - i,
{
    if i >= docs.len() {
    } else if docs[i].uuid@ == u {
    } else {
        lemma_idx_uuid(docs, u, i + 1);
    }
}

/// The error of a lookup: nothing holds the key.
#[derive(Debug, Clone, Copy, PartialEq, Eq, Structural)]
pub struct NotFound;

impl NotFound {
    /// A human-readable description of the error.
    pub fn message(&self) -> (r: &'static str) {
        "is Not Found"
    }
}

/// The first position holding the identity, if any.
fn find_uuid(index: &PostIndex, uuid: &Vec<char>) -> (r: Option<usize>)
    ensures
        match r {
            Some(k) => k as int == spec_idx_uuid(index.docs@, uuid@, 0) && k < index.docs@.len(),
            None => !spec_uuid_present(index.docs@, uuid@),
        },
{
    let n = index.docs.len();
    let mut i: usize = 0;
    while i < n
        invariant
            n == index.docs@.len(),
            i <= n,
            spec_idx_uuid(index.docs@, uuid@, 0) == spec_idx_uuid(index.docs@, uuid@, i as int),
        decreases n - i,
    {
        let dv = crate::chars::str_chars(index.docs[i].uuid.as_str());
        if crate::chars::chars_eq(&dv, uuid) {
            return Some(i);
        }
        i = i + 1;
    }
    None
}

/// Looks a document up by its identity.
pub fn get_by_uuid(uuid: &str, index: &PostIndex) -> (r: Result<IndexDoc, NotFound>)
    ensures
        match r {
            Ok(d) => spec_uuid_present(index.docs@, uuid@) && d == index.docs@[spec_idx_uuid(
                index.docs@,
                uuid@,
                0,
            )],
            Err(_) => !spec_uuid_present(index.docs@, uuid@),
        },
{
    let u = crate::chars::str_chars(uuid);
    match find_uuid(index, &u) {
        Some(k) => Ok(index.docs[k].clone()),
        None => Err(NotFound),
    }
}

/// The first position at or after `i` whose slug and language both match,
/// or the length.
pub open spec fn spec_idx_slug_lang(docs: Seq<IndexDoc>, slug: Seq<char>, lang: Seq<char>, i: int) -> int
    decreases docs.len() - i,
{
    if i >= docs.len() {
        docs.len() as int
    } else if docs[i].slug@ == slug && docs[i].lang@ == lang {
        i
    } else {
        spec_idx_slug_lang(docs, slug, lang, i + 1)
    }
}

/// Looks a document up by the composite key of slug and language; the slug
/// alone is not unique across languages.
pub fn get_by_slug_with_lang(slug: &str, lang: &str, index: &PostIndex) -> (r: Result<
    IndexDoc,
    NotFound,
>)
    ensures
        match r {
            Ok(d) => {
                &&& spec_idx_slug_lang(index.docs@, slug@, lang@, 0) < index.docs@.len()
                &&& d == index.docs@[spec_idx_slug_lang(index.docs@, slug@, lang@, 0)]
            },
            Err(_) => spec_idx_slug_lang(index.docs@, slug@, lang@, 0) == index.docs@.len(),
        },
{
    let sv = crate::chars::str_chars(slug);
    let lv = crate::chars::str_chars(lang);
    let n = index.docs.len();
    let mut i: usize = 0;
    while i < n
        invariant
            n == index.docs@.len(),
            i <= n,
            sv@ == slug@,
            lv@ == lang@,
            spec_idx_slug_lang(index.docs@, slug@, lang@, 0) == spec_idx_slug_lang(
                index.docs@,
                slug@,
                lang@,
                i as int,
            ),
        decreases n - i,
    {
        let d = &index.docs[i];
        proof {
            assert(*d == index.docs@[i as int]);
        }
        let ds = crate::chars::str_chars(d.slug.as_str());
        let dl = crate::chars::str_chars(d.lang.as_str());
        let slug_hit = crate::chars::chars_eq(&ds, &sv);
        let lang_hit = crate::chars::chars_eq(&dl, &lv);
        proof {
            assert(slug_hit == (index.docs@[i as int].slug@ == slug@));
            assert(lang_hit == (index.docs@[i as int].lang@ == lang@));
        }
        if slug_hit && lang_hit {
            proof {
                assert(spec_idx_slug_lang(index.docs@, slug@, lang@, i as int) == i as int);
            }
            return Ok(index.docs[i].clone());
        }
        proof {
            assert(spec_idx_slug_lang(index.docs@, slug@, lang@, i as int) == spec_idx_slug_lang(
                index.docs@,
                slug@,
                lang@,
                i + 1,
            ));
        }
        i = i + 1;
    }
    Err(NotFound)
}

// ---------------------------------------------------------------------------
// The upsert
// ---------------------------------------------------------------------------

/// What a put did: wrote a first document for the identity, replaced the
/// one that was there, or — the unchanged case — touched nothing.
#[derive(Debug)]
pub enum UpsertResult {
    Inserted(IndexDoc),
    Updated(IndexDoc),
    Skipped,
}

impl UpsertResult {
    /// The document written, if one was.
    pub fn doc(self) -> (r: Option<IndexDoc>)
        ensures
            match self {
                UpsertResult::Inserted(d) => r == Some(d),
                UpsertResult::Updated(d) => r == Some(d),
                UpsertResult::Skipped => r is None,
            },
    {
        match self {
            UpsertResult::Inserted(d) => Some(d),
            UpsertResult::Updated(d) => Some(d),
            UpsertResult::Skipped => None,
        }
    }
}

/// The dates an insert resolves: the post's own where present, else the
/// given moment in RFC 3339 notation.
pub open spec fn spec_insert_created(p: PostView, now: UtcDateTime) -> (UtcDateTime, NotationView) {
    match p.matter.created_at {
        Some(c) => c,
        None => (now, NotationView::R3339),
    }
}

/// The insert-resolved update date.
pub open spec fn spec_insert_updated(p: PostView, now: UtcDateTime) -> (UtcDateTime, NotationView) {
    match p.matter.updated_at {
        Some(u) => u,
        None => (now, NotationView::R3339),
    }
}

/// The creation date an update resolves: the post's own where present, else
/// the stored instant under the stored notation — never silently switched.
pub open spec fn spec_update_created(p: PostView, d: IndexDoc) -> (UtcDateTime, NotationView) {
    match p.matter.created_at {
        Some(c) => c,
        None => (d.created_at, spec_notation_of_marker(d.created_at_format@)),
    }
}

/// The update date an update resolves: the post's own when the caller asked
/// to keep it, else the given moment under the stored notation, so the
/// author's chosen style survives the edit.
pub open spec fn spec_update_updated(
    p: PostView,
    d: IndexDoc,
    skip_update_date: bool,
    now: UtcDateTime,
) -> (UtcDateTime, NotationView) {
    if skip_update_date {
        p.matter.updated_at->0
    } else {
        (now, spec_notation_of_marker(d.updated_at_format@))
    }
}

/// Reconciles a post against the store.
///
/// With no document under the post's identity, the post is inserted with
/// its own dates, defaulting to `now` in RFC 3339 notation. With one, the
/// stored document is read back as a post and compared under the relaxed
/// equality: an equal post is skipped — nothing is written; a changed one
/// replaces the stored document, its creation date and its update
/// notation carried over from the store.
#[verifier::rlimit(100)]
pub fn put(post: &Post, index: &mut PostIndex, skip_update_date: bool, now: &UtcDateTime) -> (r:
    UpsertResult)
    requires
        post.wf(),
        old(index).wf(),
        now.valid(),
        skip_update_date ==> post.matter.updated_at is Some,
    ensures
        final(index).wf(),
        ({
            let docs = old(index).docs@;
            let k = spec_idx_uuid(docs, post@.matter.uuid, 0);
            if k < docs.len() {
                let d = docs[k];
                if spec_equal_from_doc(post@, spec_post_of_doc(d)) {
                    r is Skipped && final(index).docs@ == docs
                } else {
                    match r {
                        UpsertResult::Updated(nd) => {
                            &&& spec_doc_of_post(
                                nd,
                                post@,
                                spec_update_created(post@, d),
                                spec_update_updated(post@, d, skip_update_date, *now),
                            )
                            &&& final(index).docs@ =~= docs.remove(k).push(nd)
                        },
                        _ => false,
                    }
                }
            } else {
                match r {
                    UpsertResult::Inserted(nd) => {
                        &&& spec_doc_of_post(
                            nd,
                            post@,
                            spec_insert_created(post@, *now),
                            spec_insert_updated(post@, *now),
                        )
                        &&& final(index).docs@ =~= docs.push(nd)
                    },
                    _ => false,
                }
            }
        }),
{
    let uuid_chars = crate::chars::str_chars(post.matter.uuid.as_str());
    proof {
        lemma_idx_uuid(index.docs@, post@.matter.uuid, 0);
    }
    match find_uuid(index, &uuid_chars) {
        Some(k) => {
            let stored = &index.docs[k];
            let rebuilt = match Post::from_doc(stored) {
                Ok(p) => p,
                Err(_) => {
                    proof {
                        assert(false);
                    }
                    return UpsertResult::Skipped;
                },
            };
            if post.equal_from_doc(&rebuilt) {
                return UpsertResult::Skipped;
            }
            let created_at: DateTimeWithFormat = match post.created_at() {
                Some(c) => c,
                None => DateTimeWithFormat::new(
                    stored.created_at,
                    DateTimeFormat::from_marker(stored.created_at_format.as_str()),
                ),
            };
            let updated_at: DateTimeWithFormat = if skip_update_date {
                match post.updated_at() {
                    Some(u) => u,
                    None => {
                        proof {
                            assert(false);
                        }
                        DateTimeWithFormat::new(*now, DateTimeFormat::RFC3339)
                    },
                }
            } else {
                DateTimeWithFormat::new(
                    *now,
                    DateTimeFormat::from_marker(stored.updated_at_format.as_str()),
                )
            };
            let new_doc = post.to_doc(&created_at, &updated_at);
            let ghost docs0 = index.docs@;
            index.docs.remove(k);
            index.docs.push(new_doc.clone());
            proof {
                crate::lang::lemma_lang_roundtrip(post@.matter.lang);
                assert(index.docs@ =~= docs0.remove(k as int).push(new_doc));
                lemma_put_wf_update(docs0, k as int, new_doc);
            }
            UpsertResult::Updated(new_doc)
        },
        None => {
            let now_with_format = DateTimeWithFormat::new(*now, DateTimeFormat::RFC3339);
            let created_at: DateTimeWithFormat = match post.created_at() {
                Some(c) => c,
                None => now_with_format.clone(),
            };
            let updated_at: DateTimeWithFormat = match post.updated_at() {
                Some(u) => u,
                None => now_with_format,
            };
            let new_doc = post.to_doc(&created_at, &updated_at);
            let ghost docs0 = index.docs@;
            index.docs.push(new_doc.clone());
            proof {
                crate::lang::lemma_lang_roundtrip(post@.matter.lang);
                assert(index.docs@ =~= docs0.push(new_doc));
                lemma_idx_uuid(docs0, new_doc.uuid@, 0);
                lemma_put_wf_insert(docs0, new_doc);
            }
            UpsertResult::Inserted(new_doc)
        },
    }
}

/// Appending a sound document with an absent identity keeps the store
/// well-formed.
proof fn lemma_put_wf_insert(docs: Seq<IndexDoc>, nd: IndexDoc)
    requires
        forall|i: int, j: int|
            0 <= i < j < docs.len() ==> (#[trigger] docs[i]).uuid@ != (#[trigger] docs[j]).uuid@,
        forall|i: int| 0 <= i < docs.len() ==> doc_ok(#[trigger] docs[i]),
        !spec_uuid_present(docs, nd.uuid@),
        doc_ok(nd),
    ensures
        forall|i: int, j: int|
            0 <= i < j < docs.push(nd).len() ==> (#[trigger] docs.push(nd)[i]).uuid@ != (
            #[trigger] docs.push(nd)[j]).uuid@,
        forall|i: int| 0 <= i < docs.push(nd).len() ==> doc_ok(#[trigger] docs.push(nd)[i]),
{
    lemma_idx_uuid(docs, nd.uuid@, 0);
}

/// Replacing the one document of an identity keeps the store well-formed.
proof fn lemma_put_wf_update(docs: Seq<IndexDoc>, k: int, nd: IndexDoc)
    requires
        forall|i: int, j: int|
            0 <= i < j < docs.len() ==> (#[trigger] docs[i]).uuid@ != (#[trigger] docs[j]).uuid@,
        forall|i: int| 0 <= i < docs.len() ==> doc_ok(#[trigger] docs[i]),
        0 <= k < docs.len(),
        docs[k].uuid@ == nd.uuid@,
        doc_ok(nd),
    ensures
        forall|i: int, j: int|
            0 <= i < j < docs.remove(k).push(nd).len() ==> (#[trigger] docs.remove(k).push(
                nd,
            )[i]).uuid@ != (#[trigger] docs.remove(k).push(nd)[j]).uuid@,
        forall|i: int|
            0 <= i < docs.remove(k).push(nd).len() ==> doc_ok(#[trigger] docs.remove(k).push(nd)[i]),
{
    let rest = docs.remove(k);
    assert forall|i: int| 0 <= i < rest.len() implies (#[trigger] rest[i]).uuid@ != nd.uuid@ by {
        if i < k {
            assert(rest[i] == docs[i]);
        } else {
            assert(rest[i] == docs[i + 1]);
        }
    }
    assert forall|i: int| 0 <= i < rest.len() implies doc_ok(#[trigger] rest[i]) by {
        if i < k {
            assert(rest[i] == docs[i]);
        } else {
            assert(rest[i] == docs[i + 1]);
        }
    }
    assert forall|i: int, j: int|
        0 <= i < j < rest.len() implies (#[trigger] rest[i]).uuid@ != (#[trigger] rest[j]).uuid@ by {
        if j < k {
        } else if i < k {
            assert(rest[i] == docs[i] && rest[j] == docs[j + 1]);
        } else {
            assert(rest[i] == docs[i + 1] && rest[j] == docs[j + 1]);
        }
    }
}

// ---------------------------------------------------------------------------
// The idempotence and identity-uniqueness laws
// ---------------------------------------------------------------------------

/// A tag the joined encoding keeps faithfully: non-empty and without
/// spaces. (Tags with spaces are lossy in the joined field — a documented
/// limitation.)
pub open spec fn tag_ok(t: Seq<char>) -> bool {
    t.len() > 0 && forall|j: int| 0 <= j < t.len() ==> t[j] != ' '
}

/// Tag lists the joined encoding keeps faithfully: absent, or non-empty
/// with every tag kept.
pub open spec fn tags_wf(o: Option<Seq<Seq<char>>>) -> bool {
    match o {
        None => true,
        Some(ts) => ts.len() > 0 && forall|i: int| 0 <= i < ts.len() ==> tag_ok(#[trigger] ts[i]),
    }
}

/// A notation whose stored marker names it back: any but a custom pattern
/// spelling one of the two reserved markers.
pub open spec fn notation_safe(nv: NotationView) -> bool {
    match nv {
        NotationView::Pattern(q) => q != "RFC3329"@ && q != "RFC2822"@,
        _ => true,
    }
}

/// A safe notation survives the marker round trip.
pub proof fn lemma_marker_view_roundtrip(nv: NotationView)
    requires
        notation_safe(nv),
    ensures
        spec_notation_of_marker(spec_marker_of_view(nv)) == nv,
{
    reveal_strlit("RFC3329");
    reveal_strlit("RFC2822");
    assert("RFC2822"@[3] != "RFC3329"@[3]);
}

/// Walking over a space-free token accumulates exactly it.
proof fn lemma_split_skip_token(s: Seq<char>, i: int, cur: Seq<char>, t: Seq<char>)
    requires
        0 <= i,
        i + t.len() <= s.len(),
        forall|k: int| 0 <= k < t.len() ==> s[i + k] == t[k],
        forall|k: int| 0 <= k < t.len() ==> t[k] != ' ',
    ensures
        spec_split_all_from(s, i, cur) == spec_split_all_from(s, i + t.len(), cur + t),
    decreases t.len(),
{
    if t.len() == 0 {
        assert(cur + t =~= cur);
    } else {
        assert(s[i + 0] == t[0]);
        assert(s[i] != ' ');
        let t2 = t.drop_first();
        assert forall|k: int| 0 <= k < t2.len() implies s[i + 1 + k] == t2[k] by {
            assert(t2[k] == t[k + 1]);
            assert(s[i + (k + 1)] == t[k + 1]);
        }
        assert forall|k: int| 0 <= k < t2.len() implies t2[k] != ' ' by {
            assert(t2[k] == t[k + 1]);
        }
        lemma_split_skip_token(s, i + 1, cur.push(t[0]), t2);
        assert(cur.push(t[0]) + t2 =~= cur + t);
        assert(i + 1 + t2.len() == i + t.len());
        assert(spec_split_all_from(s, i, cur) == spec_split_all_from(s, i + 1, cur.push(s[i])));
    }
}

/// Splitting the joined tags starting at `i` recovers the list.
proof fn lemma_split_join_from(ts: Seq<Seq<char>>, s: Seq<char>, i: int)
    requires
        ts.len() >= 1,
        forall|k: int| 0 <= k < ts.len() ==> tag_ok(#[trigger] ts[k]),
        0 <= i <= s.len(),
        s.subrange(i, s.len() as int) == spec_join_tags(ts),
    ensures
        spec_split_all_from(s, i, Seq::empty()) == ts,
    decreases ts.len(),
{
    let t0 = ts[0];
    assert(tag_ok(t0));
    if ts.len() == 1 {
        assert(spec_join_tags(ts) == t0);
        assert(s.len() - i == t0.len());
        assert forall|k: int| 0 <= k < t0.len() implies s[i + k] == t0[k] by {
            assert(s.subrange(i, s.len() as int)[k] == s[i + k]);
        }
        lemma_split_skip_token(s, i, Seq::empty(), t0);
        assert(Seq::empty() + t0 =~= t0);
        assert(spec_split_all_from(s, i + t0.len(), t0) == seq![t0]);
        assert(seq![t0] =~= ts);
    } else {
        let rest = ts.drop_first();
        assert(spec_join_tags(ts) == t0 + seq![' '] + spec_join_tags(rest));
        assert forall|k: int| 0 <= k < t0.len() implies s[i + k] == t0[k] by {
            assert(s.subrange(i, s.len() as int)[k] == s[i + k]);
            assert((t0 + seq![' '] + spec_join_tags(rest))[k] == t0[k]);
        }
        lemma_split_skip_token(s, i, Seq::empty(), t0);
        let j = i + t0.len();
        assert(s[j] == ' ') by {
            assert(s.subrange(i, s.len() as int)[t0.len() as int] == s[j]);
            assert((t0 + seq![' '] + spec_join_tags(rest))[t0.len() as int] == ' ');
        }
        assert(spec_split_all_from(s, j, Seq::empty() + t0) == seq![Seq::empty() + t0]
            + spec_split_all_from(s, j + 1, Seq::empty()));
        assert(s.subrange(j + 1, s.len() as int) =~= spec_join_tags(rest)) by {
            assert forall|k: int|
                0 <= k < s.len() - j - 1 implies s.subrange(j + 1, s.len() as int)[k]
                == spec_join_tags(rest)[k] by {
                assert(s.subrange(j + 1, s.len() as int)[k] == s[j + 1 + k]);
                assert(s.subrange(i, s.len() as int)[t0.len() + 1 + k] == s[j + 1 + k]);
                assert((t0 + seq![' '] + spec_join_tags(rest))[t0.len() + 1 + k]
                    == spec_join_tags(rest)[k]);
            }
        }
        assert forall|k: int| 0 <= k < rest.len() implies tag_ok(#[trigger] rest[k]) by {
            assert(rest[k] == ts[k + 1]);
        }
        lemma_split_join_from(rest, s, j + 1);
        assert(Seq::empty() + t0 =~= t0);
        assert(seq![t0] + rest =~= ts);
    }
}

/// Splitting the joined encoding of a faithful tag list recovers the list.
pub proof fn lemma_split_all_join(ts: Seq<Seq<char>>)
    requires
        ts.len() >= 1,
        forall|k: int| 0 <= k < ts.len() ==> tag_ok(#[trigger] ts[k]),
    ensures
        spec_split_all(spec_join_tags(ts)) == ts,
{
    let s = spec_join_tags(ts);
    assert(s.subrange(0, s.len() as int) =~= s);
    lemma_split_join_from(ts, s, 0);
}

/// A document just written from a post reads back as a post that is
/// relaxed-equal to it: the ground of upsert idempotence. The one proviso
/// on the inputs: tags must survive the joined encoding.
pub proof fn lemma_put_reads_back(
    p: PostView,
    nd: IndexDoc,
    c: (UtcDateTime, NotationView),
    u: (UtcDateTime, NotationView),
)
    requires
        spec_doc_of_post(nd, p, c, u),
        tags_wf(p.matter.tags),
    ensures
        spec_equal_from_doc(p, spec_post_of_doc(nd)),
{
    crate::lang::lemma_lang_roundtrip(p.matter.lang);
    match p.matter.tags {
        None => {
            assert(nd.tags@.len() == 0);
        },
        Some(ts) => {
            assert(nd.tags@ == spec_join_tags(ts));
            if ts.len() == 1 {
                assert(spec_join_tags(ts) == ts[0]);
                assert(tag_ok(ts[0]));
            } else {
                assert(spec_join_tags(ts) == ts[0] + seq![' '] + spec_join_tags(ts.drop_first()));
            }
            assert(nd.tags@.len() > 0);
            lemma_split_all_join(ts);
        },
    }
}

/// Identity uniqueness: in a well-formed store any two positions holding
/// the same identity are the same position, so a lookup by identity is
/// never ambiguous.
pub proof fn lemma_uuid_unique(index: PostIndex, i: int, j: int)
    requires
        index.wf(),
        0 <= i < index.docs@.len(),
        0 <= j < index.docs@.len(),
        index.docs@[i].uuid@ == index.docs@[j].uuid@,
    ensures
        i == j,
{
}

/// Idempotence of the upsert: after a put has written `nd` for the post
/// `p` — over any documents `x` that held no document for `p`'s identity —
/// the store holds exactly one document for that identity, and it reads
/// back relaxed-equal to `p`. By `put`'s own contract, an immediately
/// repeated put of the unchanged post therefore skips and leaves the store
/// as it is.
pub proof fn lemma_put_idempotent(
    p: PostView,
    x: Seq<IndexDoc>,
    nd: IndexDoc,
    c: (UtcDateTime, NotationView),
    u: (UtcDateTime, NotationView),
)
    requires
        spec_doc_of_post(nd, p, c, u),
        tags_wf(p.matter.tags),
        forall|k: int| 0 <= k < x.len() ==> (#[trigger] x[k]).uuid@ != p.matter.uuid,
    ensures
        spec_idx_uuid(x.push(nd), p.matter.uuid, 0) == x.len(),
        x.push(nd)[x.len() as int] == nd,
        spec_equal_from_doc(p, spec_post_of_doc(nd)),
        forall|k: int|
            0 <= k < x.push(nd).len() && (#[trigger] x.push(nd)[k]).uuid@ == p.matter.uuid ==> k
                == x.len(),
{
    lemma_put_reads_back(p, nd, c, u);
    let docs = x.push(nd);
    lemma_idx_uuid(docs, p.matter.uuid, 0);
    let idx = spec_idx_uuid(docs, p.matter.uuid, 0);
    assert(docs[x.len() as int] == nd);
    assert(nd.uuid@ == p.matter.uuid);
    assert(idx <= x.len());
    assert forall|k: int|
        0 <= k < docs.len() && (#[trigger] docs[k]).uuid@ == p.matter.uuid implies k == x.len() by {
        if k < x.len() {
            assert(docs[k] == x[k]);
        }
    }
}

// ---------------------------------------------------------------------------
// Filtering and ordering
// ---------------------------------------------------------------------------

/// Whether a document matches one exact-match term: membership for the
/// tags field, full-value equality for every other.
pub open spec fn spec_term_match(d: IndexDoc, f: PostField, term: Seq<char>) -> bool {
    if f == PostField::Tags {
        crate::schema::spec_split_tags(d.tags@).contains(term)
    } else {
        crate::schema::spec_doc_text(d, f) == term
    }
}

/// Whether a document matches every term of an AND-combined filter; an
/// empty filter matches all.
pub open spec fn spec_filter_match(d: IndexDoc, terms: Seq<(PostField, Seq<char>)>) -> bool {
    forall|j: int| 0 <= j < terms.len() ==> spec_term_match(d, (#[trigger] terms[j]).0, terms[j].1)
}

/// The matching documents, in store order.
pub open spec fn spec_filtered(docs: Seq<IndexDoc>, terms: Seq<(PostField, Seq<char>)>) -> Seq<
    IndexDoc,
>
    decreases docs.len(),
{
    if docs.len() == 0 {
        Seq::empty()
    } else {
        spec_filtered(docs.drop_last(), terms) + (if spec_filter_match(docs.last(), terms) {
            seq![docs.last()]
        } else {
            Seq::empty()
        })
    }
}

/// The abstract terms of a filter.
pub open spec fn terms_view(ts: Seq<(PostField, String)>) -> Seq<(PostField, Seq<char>)> {
    ts.map_values(|p: (PostField, String)| (p.0, p.1@))
}

/// Whether the text `t` is one of the strings of `v`.
pub fn contains_str(v: &Vec<String>, t: &Vec<char>) -> (r: bool)
    ensures
        r == crate::schema::strs_view(v@).contains(t@),
{
    let n = v.len();
    let mut i: usize = 0;
    while i < n
        invariant
            n == v@.len(),
            i <= n,
            forall|j: int| 0 <= j < i ==> v@[j]@ != t@,
        decreases n - i,
    {
        let cv = crate::chars::str_chars(v[i].as_str());
        if crate::chars::chars_eq(&cv, t) {
            assert(crate::schema::strs_view(v@)[i as int] == t@);
            return true;
        }
        i = i + 1;
    }
    proof {
        if crate::schema::strs_view(v@).contains(t@) {
            let j = choose|j: int|
                0 <= j < v@.len() && crate::schema::strs_view(v@)[j] == t@;
            assert(v@[j]@ == t@);
        }
    }
    false
}

/// Whether a document matches one term.
fn term_match(d: &IndexDoc, f: PostField, term: &Vec<char>) -> (r: bool)
    requires
        crate::schema::spec_is_text_field(f),
    ensures
        r == spec_term_match(*d, f, term@),
{
    if let PostField::Tags = f {
        let tags = crate::schema::split_tags(&d.tags);
        contains_str(&tags, term)
    } else {
        let fg_text: String = match f {
            PostField::Uuid => d.uuid.clone(),
            PostField::Slug => d.slug.clone(),
            PostField::Title => d.title.clone(),
            PostField::Description => d.description.clone(),
            PostField::Lang => d.lang.clone(),
            PostField::Category => d.category.clone(),
            PostField::Body => d.body.clone(),
            PostField::CreatedAtFormat => d.created_at_format.clone(),
            PostField::UpdatedAtFormat => d.updated_at_format.clone(),
            _ => d.tags.clone(),
        };
        let cv = crate::chars::str_chars(fg_text.as_str());
        crate::chars::chars_eq(&cv, term)
    }
}

/// Whether a document matches the whole filter.
fn filter_match(d: &IndexDoc, terms: &Vec<(PostField, String)>) -> (r: bool)
    requires
        forall|j: int|
            0 <= j < terms@.len() ==> crate::schema::spec_is_text_field(
                (#[trigger] terms@[j]).0,
            ),
    ensures
        r == spec_filter_match(*d, terms_view(terms@)),
{
    let n = terms.len();
    let mut j: usize = 0;
    while j < n
        invariant
            n == terms@.len(),
            j <= n,
            forall|k: int|
                0 <= k < terms@.len() ==> crate::schema::spec_is_text_field(
                    (#[trigger] terms@[k]).0,
                ),
            forall|k: int|
                0 <= k < j ==> spec_term_match(
                    *d,
                    (#[trigger] terms_view(terms@)[k]).0,
                    terms_view(terms@)[k].1,
                ),
        decreases n - j,
    {
        let tv = crate::chars::str_chars(terms[j].1.as_str());
        let hit = term_match(d, terms[j].0, &tv);
        proof {
            assert(terms_view(terms@)[j as int] == (terms@[j as int].0, terms@[j as int].1@));
        }
        if !hit {
            assert(!spec_term_match(*d, terms_view(terms@)[j as int].0, terms_view(terms@)[j as int].1));
            return false;
        }
        j = j + 1;
    }
    true
}

/// The sort key an ordered query uses.
pub open spec fn spec_date_key(d: IndexDoc, ob: OrderBy) -> UtcDateTime {
    match ob {
        OrderBy::CreatedAt => d.created_at,
        OrderBy::UpdatedAt => d.updated_at,
    }
}

/// Descending order by the key: no later element is newer than an earlier
/// one.
pub open spec fn spec_sorted_desc(s: Seq<IndexDoc>, ob: OrderBy) -> bool {
    forall|a: int, b: int|
        0 <= a < b < s.len() ==> spec_date_key(#[trigger] s[b], ob).spec_le(
            spec_date_key(#[trigger] s[a], ob),
        )
}

/// The chronological order is total.
pub proof fn lemma_le_total(a: UtcDateTime, b: UtcDateTime)
    ensures
        a.spec_le(b) || b.spec_le(a),
{
}

/// The chronological order is transitive.
pub proof fn lemma_le_trans(a: UtcDateTime, b: UtcDateTime, c: UtcDateTime)
    requires
        a.spec_le(b),
        b.spec_le(c),
    ensures
        a.spec_le(c),
{
}

/// A sequence with one element inserted holds one more of it and the same
/// of everything else.
proof fn lemma_insert_multiset(s: Seq<IndexDoc>, j: int, x: IndexDoc)
    requires
        0 <= j <= s.len(),
    ensures
        s.insert(j, x).to_multiset() =~= s.to_multiset().insert(x),
    decreases s.len() - j,
{
    broadcast use vstd::seq_lib::group_seq_properties;

    let s2 = s.insert(j, x);
    assert(s2.remove(j) =~= s);
    vstd::seq_lib::lemma_multiset_commutative(s2.subrange(0, j), s2.subrange(j, s2.len() as int));
    s2.to_multiset_ensures();
    assert(s2.remove(j).to_multiset() =~= s2.to_multiset().remove(s2[j]));
    assert(s2[j] == x);
    assert(s2.contains(x));
    assert(s2.to_multiset().count(x) > 0);
    assert(s.to_multiset().insert(x) =~= s2.to_multiset());
}

/// Inserts a document into a descending run, keeping it descending; equal
/// keys keep their arrival order.
fn insert_sorted(out: &mut Vec<IndexDoc>, d: IndexDoc, ob: OrderBy)
    requires
        spec_sorted_desc(old(out)@, ob),
        d.wf(),
        forall|k: int| 0 <= k < old(out)@.len() ==> (#[trigger] old(out)@[k]).wf(),
    ensures
        spec_sorted_desc(final(out)@, ob),
        final(out)@.to_multiset() =~= old(out)@.to_multiset().insert(d),
        forall|k: int| 0 <= k < final(out)@.len() ==> (#[trigger] final(out)@[k]).wf(),
{
    let n = out.len();
    let mut j: usize = 0;
    let mut stop: bool = false;
    let key = match ob {
        OrderBy::CreatedAt => d.created_at,
        OrderBy::UpdatedAt => d.updated_at,
    };
    while j < n && !stop
        invariant
            n == out@.len(),
            j <= n,
            key == spec_date_key(d, ob),
            spec_sorted_desc(out@, ob),
            forall|k: int| 0 <= k < j ==> key.spec_le(spec_date_key(#[trigger] out@[k], ob)),
            stop ==> j < n && spec_date_key(out@[j as int], ob).spec_le(key),
        decreases n - j, 1int - (if stop {
            1int
        } else {
            0int
        }),
    {
        let ok = match ob {
            OrderBy::CreatedAt => key.le(&out[j].created_at),
            OrderBy::UpdatedAt => key.le(&out[j].updated_at),
        };
        if !ok {
            proof {
                lemma_le_total(key, spec_date_key(out@[j as int], ob));
            }
            stop = true;
        } else {
            j = j + 1;
        }
    }
    let ghost prev = out@;
    out.insert(j, d);
    proof {
        lemma_insert_multiset(prev, j as int, d);
        assert forall|a: int, b: int|
            0 <= a < b < out@.len() implies spec_date_key(#[trigger] out@[b], ob).spec_le(
            spec_date_key(#[trigger] out@[a], ob),
        ) by {
            if b < j {
            } else if a > j {
            } else if a == j && b > j {
                assert(j < n && spec_date_key(prev[j as int], ob).spec_le(key));
                assert(out@[b] == prev[b - 1]);
                if b - 1 > j {
                    lemma_le_trans(
                        spec_date_key(prev[b - 1], ob),
                        spec_date_key(prev[j as int], ob),
                        key,
                    );
                } else {
                }
            } else if a < j && b == j {
                assert(out@[a] == prev[a]);
            } else if a < j && b > j {
                assert(out@[a] == prev[a] && out@[b] == prev[b - 1]);
            }
        }
    }
}

/// AND-combines zero or more exact-match term filters over the whole
/// store: every matching document is returned — `None` when nothing
/// matches, so callers can short-circuit. With an ordering field the
/// result is the same set, descending by that field; otherwise it is in
/// store order.
pub fn get_all(index: &PostIndex, terms: &Vec<(PostField, String)>, order_by: Option<OrderBy>) -> (r:
    Option<Vec<IndexDoc>>)
    requires
        index.wf(),
        forall|j: int|
            0 <= j < terms@.len() ==> crate::schema::spec_is_text_field(
                (#[trigger] terms@[j]).0,
            ),
    ensures
        match r {
            Some(v) => forall|k: int| 0 <= k < v@.len() ==> (#[trigger] v@[k]).wf(),
            None => true,
        },
        ({
            let filtered = spec_filtered(index.docs@, terms_view(terms@));
            match r {
                None => filtered.len() == 0,
                Some(v) => {
                    &&& filtered.len() > 0
                    &&& v@.len() == filtered.len()
                    &&& match order_by {
                        None => v@ == filtered,
                        Some(ob) => v@.to_multiset() =~= filtered.to_multiset()
                            && spec_sorted_desc(v@, ob),
                    }
                },
            }
        }),
{
    let n = index.docs.len();
    let mut matched: Vec<IndexDoc> = Vec::new();
    let mut i: usize = 0;
    proof {
        assert(index.docs@.subrange(0, 0) =~= Seq::<IndexDoc>::empty());
        assert(matched@ =~= spec_filtered(index.docs@.subrange(0, 0), terms_view(terms@)));
    }
    while i < n
        invariant
            n == index.docs@.len(),
            i <= n,
            index.wf(),
            forall|j: int|
                0 <= j < terms@.len() ==> crate::schema::spec_is_text_field(
                    (#[trigger] terms@[j]).0,
                ),
            matched@ == spec_filtered(index.docs@.subrange(0, i as int), terms_view(terms@)),
            forall|k: int| 0 <= k < matched@.len() ==> (#[trigger] matched@[k]).wf(),
        decreases n - i,
    {
        let hit = filter_match(&index.docs[i], terms);
        let ghost prevm = matched@;
        if hit {
            matched.push(index.docs[i].clone());
        }
        proof {
            let pre = index.docs@.subrange(0, i + 1);
            assert(pre.drop_last() =~= index.docs@.subrange(0, i as int));
            assert(pre.last() == index.docs@[i as int]);
            if hit {
                assert(matched@ =~= prevm + seq![index.docs@[i as int]]);
            } else {
                assert(matched@ =~= prevm + Seq::<IndexDoc>::empty());
            }
        }
        i = i + 1;
    }
    proof {
        assert(index.docs@.subrange(0, n as int) =~= index.docs@);
    }
    if matched.len() == 0 {
        return None;
    }
    match order_by {
        None => Some(matched),
        Some(ob) => {
            let m = matched.len();
            let mut sorted: Vec<IndexDoc> = Vec::new();
            let mut k: usize = 0;
            proof {
                assert(sorted@ =~= Seq::<IndexDoc>::empty());
                assert(sorted@.to_multiset() =~= matched@.subrange(0, 0).to_multiset()) by {
                    assert(matched@.subrange(0, 0) =~= Seq::<IndexDoc>::empty());
                    Seq::<IndexDoc>::empty().to_multiset_ensures();
                    matched@.subrange(0, 0).to_multiset_ensures();
                    assert(Seq::<IndexDoc>::empty().to_multiset().len() == 0);
                    assert(matched@.subrange(0, 0).to_multiset().len() == 0);
                    assert(sorted@.to_multiset() =~= matched@.subrange(0, 0).to_multiset());
                }
            }
            while k < m
                invariant
                    m == matched@.len(),
                    k <= m,
                    forall|x: int| 0 <= x < matched@.len() ==> (#[trigger] matched@[x]).wf(),
                    spec_sorted_desc(sorted@, ob),
                    sorted@.to_multiset() =~= matched@.subrange(0, k as int).to_multiset(),
                    forall|x: int| 0 <= x < sorted@.len() ==> (#[trigger] sorted@[x]).wf(),
                decreases m - k,
            {
                insert_sorted(&mut sorted, matched[k].clone(), ob);
                proof {
                    let pre = matched@.subrange(0, k + 1);
                    assert(pre =~= matched@.subrange(0, k as int).push(matched@[k as int]));
                    matched@.subrange(0, k as int).to_multiset_ensures();
                }
                k = k + 1;
            }
            proof {
                assert(matched@.subrange(0, m as int) =~= matched@);
                sorted@.to_multiset_ensures();
                matched@.to_multiset_ensures();
                assert(sorted@.len() == sorted@.to_multiset().len());
                assert(matched@.len() == matched@.to_multiset().len());
            }
            Some(sorted)
        },
    }
}

// ---------------------------------------------------------------------------
// Facets
// ---------------------------------------------------------------------------

/// Whether `t` is a tag of some document of `docs`.
pub open spec fn spec_is_doc_tag(docs: Seq<IndexDoc>, t: Seq<char>) -> bool {
    exists|i: int|
        0 <= i < docs.len() && crate::schema::spec_split_tags(
            (#[trigger] docs[i]).tags@,
        ).contains(t)
}

/// Whether `c` is the category of some document of `docs`.
pub open spec fn spec_is_doc_category(docs: Seq<IndexDoc>, c: Seq<char>) -> bool {
    exists|i: int| 0 <= i < docs.len() && (#[trigger] docs[i]).category@ == c
}

/// Distinct strings: no text appears twice.
pub open spec fn spec_distinct_strs(v: Seq<String>) -> bool {
    forall|a: int, b: int| 0 <= a < b < v.len() ==> (#[trigger] v[a])@ != (#[trigger] v[b])@
}

/// Adds a string unless an equal one is already present.
fn add_unique(v: &mut Vec<String>, s: &String)
    requires
        spec_distinct_strs(old(v)@),
    ensures
        spec_distinct_strs(final(v)@),
        forall|x: Seq<char>|
            #[trigger] crate::schema::strs_view(final(v)@).contains(x) <==> (
            crate::schema::strs_view(old(v)@).contains(x) || x == s@),
{
    let sc = crate::chars::str_chars(s.as_str());
    if !contains_str(v, &sc) {
        let ghost prev = v@;
        v.push(s.clone());
        proof {
            assert(crate::schema::strs_view(v@)[prev.len() as int] == s@);
            assert forall|x: Seq<char>| #[trigger] crate::schema::strs_view(v@).contains(
                x,
            ) implies (crate::schema::strs_view(prev).contains(x) || x == s@) by {
                let w = choose|w: int|
                    0 <= w < crate::schema::strs_view(v@).len() && crate::schema::strs_view(
                        v@,
                    )[w] == x;
                if w < prev.len() {
                    assert(crate::schema::strs_view(prev)[w] == x);
                }
            }
            assert forall|x: Seq<char>| crate::schema::strs_view(prev).contains(
                x,
            ) implies #[trigger] crate::schema::strs_view(v@).contains(x) by {
                let w = choose|w: int|
                    0 <= w < crate::schema::strs_view(prev).len() && crate::schema::strs_view(
                        prev,
                    )[w] == x;
                assert(crate::schema::strs_view(v@)[w] == x);
            }
            assert forall|a: int, b: int| 0 <= a < b < v@.len() implies (#[trigger] v@[a])@ != (
            #[trigger] v@[b])@ by {
                if b == prev.len() {
                    assert(crate::schema::strs_view(prev)[a] == prev[a]@);
                    if v@[a]@ == s@ {
                        assert(crate::schema::strs_view(prev).contains(s@));
                    }
                }
            }
        }
    } else {
        proof {
            assert forall|x: Seq<char>|
                #[trigger] crate::schema::strs_view(v@).contains(x) <==> (
            crate::schema::strs_view(old(v)@).contains(x) || x == s@) by {
                assert(crate::schema::strs_view(v@) == crate::schema::strs_view(old(v)@));
            }
        }
    }
}

/// Scans the whole store once and accumulates its facets: the distinct
/// tags and the distinct categories, each returned once.
pub fn get_tags_and_categories(index: &PostIndex) -> (r: (Vec<String>, Vec<String>))
    ensures
        spec_distinct_strs(r.0@),
        spec_distinct_strs(r.1@),
        forall|t: Seq<char>|
            #[trigger] crate::schema::strs_view(r.0@).contains(t) <==> spec_is_doc_tag(
                index.docs@,
                t,
            ),
        forall|c: Seq<char>|
            #[trigger] crate::schema::strs_view(r.1@).contains(c) <==> spec_is_doc_category(
                index.docs@,
                c,
            ),
{
    let n = index.docs.len();
    let mut tags: Vec<String> = Vec::new();
    let mut categories: Vec<String> = Vec::new();
    let mut i: usize = 0;
    while i < n
        invariant
            n == index.docs@.len(),
            i <= n,
            spec_distinct_strs(tags@),
            spec_distinct_strs(categories@),
            forall|t: Seq<char>|
                #[trigger] crate::schema::strs_view(tags@).contains(t) <==> spec_is_doc_tag(
                    index.docs@.subrange(0, i as int),
                    t,
                ),
            forall|c: Seq<char>|
                #[trigger] crate::schema::strs_view(categories@).contains(c)
                    <==> spec_is_doc_category(index.docs@.subrange(0, i as int), c),
        decreases n - i,
    {
        let ghost pre_docs = index.docs@.subrange(0, i as int);
        let ghost cur_docs = index.docs@.subrange(0, i + 1);
        proof {
            assert(cur_docs.drop_last() =~= pre_docs);
            assert(cur_docs.last() == index.docs@[i as int]);
            assert forall|t: Seq<char>| spec_is_doc_tag(pre_docs, t) implies spec_is_doc_tag(
                cur_docs,
                t,
            ) by {
                let w = choose|w: int|
                    0 <= w < pre_docs.len() && crate::schema::spec_split_tags(
                        (#[trigger] pre_docs[w]).tags@,
                    ).contains(t);
                assert(cur_docs[w] == pre_docs[w]);
            }
            assert forall|t: Seq<char>| spec_is_doc_tag(cur_docs, t) implies (spec_is_doc_tag(
                pre_docs,
                t,
            ) || crate::schema::spec_split_tags(index.docs@[i as int].tags@).contains(t)) by {
                let w = choose|w: int|
                    0 <= w < cur_docs.len() && crate::schema::spec_split_tags(
                        (#[trigger] cur_docs[w]).tags@,
                    ).contains(t);
                if w < i {
                    assert(pre_docs[w] == cur_docs[w]);
                }
            }
            assert forall|c: Seq<char>| spec_is_doc_category(pre_docs, c) implies spec_is_doc_category(
                cur_docs,
                c,
            ) by {
                let w = choose|w: int| 0 <= w < pre_docs.len() && (#[trigger] pre_docs[w]).category@ == c;
                assert(cur_docs[w] == pre_docs[w]);
            }
            assert forall|c: Seq<char>| spec_is_doc_category(cur_docs, c) implies (
            spec_is_doc_category(pre_docs, c) || index.docs@[i as int].category@ == c) by {
                let w = choose|w: int| 0 <= w < cur_docs.len() && (#[trigger] cur_docs[w]).category@ == c;
                if w < i {
                    assert(pre_docs[w] == cur_docs[w]);
                }
            }
        }
        add_unique(&mut categories, &index.docs[i].category);
        let doc_tags = crate::schema::split_tags(&index.docs[i].tags);
        let tn = doc_tags.len();
        let mut j: usize = 0;
        while j < tn
            invariant
                tn == doc_tags@.len(),
                j <= tn,
                crate::schema::strs_view(doc_tags@) == crate::schema::spec_split_tags(
                    index.docs@[i as int].tags@,
                ),
                0 <= i < index.docs@.len(),
                spec_distinct_strs(tags@),
                forall|t: Seq<char>|
                    #[trigger] crate::schema::strs_view(tags@).contains(t) <==> (spec_is_doc_tag(
                        index.docs@.subrange(0, i as int),
                        t,
                    ) || exists|w: int|
                        0 <= w < j && #[trigger] crate::schema::strs_view(doc_tags@)[w] == t),
            decreases tn - j,
        {
            add_unique(&mut tags, &doc_tags[j]);
            proof {
                assert(crate::schema::strs_view(doc_tags@)[j as int] == doc_tags@[j as int]@);
            }
            j = j + 1;
        }
        proof {
            assert forall|t: Seq<char>|
                #[trigger] crate::schema::strs_view(tags@).contains(t) <==> spec_is_doc_tag(
                    cur_docs,
                    t,
                ) by {
                if crate::schema::strs_view(tags@).contains(t) {
                    if !spec_is_doc_tag(pre_docs, t) {
                        let w = choose|w: int|
                            0 <= w < tn && #[trigger] crate::schema::strs_view(doc_tags@)[w] == t;
                        assert(crate::schema::spec_split_tags(
                            index.docs@[i as int].tags@,
                        ).contains(t));
                    }
                }
                if spec_is_doc_tag(cur_docs, t) {
                    if !spec_is_doc_tag(pre_docs, t) {
                        let w = choose|w: int|
                            0 <= w < crate::schema::spec_split_tags(
                                index.docs@[i as int].tags@,
                            ).len() && #[trigger] crate::schema::spec_split_tags(
                                index.docs@[i as int].tags@,
                            )[w] == t;
                        assert(crate::schema::strs_view(doc_tags@)[w] == t);
                    }
                }
            }
        }
        i = i + 1;
    }
    proof {
        assert(index.docs@.subrange(0, n as int) =~= index.docs@);
    }
    (tags, categories)
}

// ---------------------------------------------------------------------------
// Free-text search
// ---------------------------------------------------------------------------

/// The searchable text of a field: the plain search text for the
/// index-only field, the stored text otherwise.
pub open spec fn spec_search_text(d: IndexDoc, f: PostField) -> Seq<char> {
    if f == PostField::RawText {
        match d.raw_text {
            Some(t) => t@,
            None => Seq::empty(),
        }
    } else {
        crate::schema::spec_doc_text(d, f)
    }
}

/// Whether `needle` occurs in `hay` as a contiguous run.
pub open spec fn spec_contains_sub(hay: Seq<char>, needle: Seq<char>) -> bool {
    exists|k: int|
        0 <= k && k + needle.len() <= hay.len() && #[trigger] hay.subrange(k, k + needle.len())
            == needle
}

/// Whether the already-folded query occurs in some searched field, both
/// sides under ASCII case folding.
pub open spec fn spec_search_match_folded(
    d: IndexDoc,
    fields: Seq<PostField>,
    qf: Seq<char>,
) -> bool {
    exists|j: int|
        0 <= j < fields.len() && spec_contains_sub(
            crate::lang::ascii_lower(spec_search_text(d, #[trigger] fields[j])),
            qf,
        )
}

/// Whether the query text occurs in some searched field of the document,
/// matched case-normalized (ASCII case folding on both sides).
pub open spec fn spec_search_match(d: IndexDoc, fields: Seq<PostField>, q: Seq<char>) -> bool {
    spec_search_match_folded(d, fields, crate::lang::ascii_lower(q))
}

/// The documents matching a query over the given fields, in store order.
pub open spec fn spec_search_hits(docs: Seq<IndexDoc>, fields: Seq<PostField>, q: Seq<char>) -> Seq<
    IndexDoc,
>
    decreases docs.len(),
{
    if docs.len() == 0 {
        Seq::empty()
    } else {
        spec_search_hits(docs.drop_last(), fields, q) + (if spec_search_match(
            docs.last(),
            fields,
            q,
        ) {
            seq![docs.last()]
        } else {
            Seq::empty()
        })
    }
}

/// Whether `needle` occurs in `hay` as a contiguous run.
pub fn contains_sub(hay: &Vec<char>, needle: &Vec<char>) -> (r: bool)
    ensures
        r == spec_contains_sub(hay@, needle@),
{
    let hn = hay.len();
    let nn = needle.len();
    if nn > hn {
        return false;
    }
    if nn == 0 {
        proof {
            assert(hay@.subrange(0, 0 + needle@.len() as int) =~= needle@);
        }
        return true;
    }
    let mut k: usize = 0;
    while hn - k >= nn
        invariant
            hn == hay@.len(),
            nn == needle@.len(),
            0 < nn <= hn,
            k <= hn,
            forall|x: int|
                0 <= x < k ==> #[trigger] hay@.subrange(x, x + needle@.len()) != needle@,
        decreases hn - k,
    {
        let piece = crate::frontmatter::subrange_chars(hay, k, k + nn);
        if crate::chars::chars_eq(&piece, needle) {
            return true;
        }
        k = k + 1;
    }
    proof {
        if spec_contains_sub(hay@, needle@) {
            let w = choose|w: int|
                0 <= w && w + needle@.len() <= hay@.len() && #[trigger] hay@.subrange(
                    w,
                    w + needle@.len(),
                ) == needle@;
            assert(w < k);
        }
    }
    false
}

/// The searchable text of one field of a document.
fn search_text(d: &IndexDoc, f: PostField) -> (r: String)
    ensures
        r@ == spec_search_text(*d, f),
{
    match f {
        PostField::RawText => match &d.raw_text {
            Some(t) => t.clone(),
            None => String::new(),
        },
        PostField::Uuid => d.uuid.clone(),
        PostField::Slug => d.slug.clone(),
        PostField::Title => d.title.clone(),
        PostField::Description => d.description.clone(),
        PostField::Lang => d.lang.clone(),
        PostField::Category => d.category.clone(),
        PostField::Tags => d.tags.clone(),
        PostField::Body => d.body.clone(),
        PostField::CreatedAtFormat => d.created_at_format.clone(),
        PostField::UpdatedAtFormat => d.updated_at_format.clone(),
        _ => {
            proof {
                assert(spec_search_text(*d, f) =~= Seq::<char>::empty());
            }
            String::new()
        },
    }
}

/// Whether the already-folded query occurs in some searched field.
fn search_match(d: &IndexDoc, fields: &Vec<PostField>, qf: &Vec<char>) -> (r: bool)
    ensures
        r == spec_search_match_folded(*d, fields@, qf@),
{
    let n = fields.len();
    let mut j: usize = 0;
    while j < n
        invariant
            n == fields@.len(),
            j <= n,
            forall|k: int|
                0 <= k < j ==> !spec_contains_sub(
                    crate::lang::ascii_lower(spec_search_text(*d, #[trigger] fields@[k])),
                    qf@,
                ),
        decreases n - j,
    {
        let text = search_text(d, fields[j]);
        let tv = crate::lang::lower_ascii_str(text.as_str());
        if contains_sub(&tv, qf) {
            return true;
        }
        j = j + 1;
    }
    false
}

/// Ranked free-text search: up to `limit` documents whose searched fields
/// hold the query under ASCII case folding, in store order; a zero limit
/// yields nothing at once.
pub fn search(query: &str, fields: &Vec<PostField>, limit: usize, index: &PostIndex) -> (r: Vec<
    IndexDoc,
>)
    ensures
        limit == 0 ==> r@.len() == 0,
        ({
            let hits = spec_search_hits(index.docs@, fields@, query@);
            r@ == hits.take(if limit < hits.len() {
                limit as int
            } else {
                hits.len() as int
            })
        }),
{
    let qv = crate::lang::lower_ascii_str(query);
    let n = index.docs.len();
    let mut out: Vec<IndexDoc> = Vec::new();
    if limit == 0 {
        proof {
            let hits = spec_search_hits(index.docs@, fields@, query@);
            assert(out@ =~= hits.take(0));
        }
        return out;
    }
    let mut i: usize = 0;
    while i < n
        invariant
            n == index.docs@.len(),
            qv@ == crate::lang::ascii_lower(query@),
            limit > 0,
            i <= n,
            out@.len() <= limit,
            ({
                let hits_pre = spec_search_hits(
                    index.docs@.subrange(0, i as int),
                    fields@,
                    query@,
                );
                out@ == hits_pre.take(
                    if limit < hits_pre.len() {
                        limit as int
                    } else {
                        hits_pre.len() as int
                    },
                )
            }),
            ({
                let hits_pre = spec_search_hits(
                    index.docs@.subrange(0, i as int),
                    fields@,
                    query@,
                );
                out@.len() < limit ==> out@ == hits_pre
            }),
        decreases n - i,
    {
        let ghost pre = index.docs@.subrange(0, i as int);
        let ghost cur = index.docs@.subrange(0, i + 1);
        proof {
            assert(cur.drop_last() =~= pre);
            assert(cur.last() == index.docs@[i as int]);
        }
        if out.len() < limit {
            let hit = search_match(&index.docs[i], fields, &qv);
            let ghost prev_out = out@;
            if hit {
                out.push(index.docs[i].clone());
                proof {
                    let hits_cur = spec_search_hits(cur, fields@, query@);
                    assert(hits_cur =~= spec_search_hits(pre, fields@, query@) + seq![
                        index.docs@[i as int]]);
                    assert(out@ =~= prev_out.push(index.docs@[i as int]));
                    if out@.len() < limit {
                        assert(out@ =~= hits_cur);
                        assert(out@ =~= hits_cur.take(hits_cur.len() as int));
                    } else {
                        assert(out@ =~= hits_cur.take(limit as int));
                    }
                }
            } else {
                proof {
                    let hits_cur = spec_search_hits(cur, fields@, query@);
                    assert(hits_cur =~= spec_search_hits(pre, fields@, query@));
                }
            }
        } else {
            proof {
                let hits_pre = spec_search_hits(pre, fields@, query@);
                let hits_cur = spec_search_hits(cur, fields@, query@);
                assert(hits_pre.len() >= limit);
                if spec_search_match(index.docs@[i as int], fields@, query@) {
                    assert(hits_cur =~= hits_pre + seq![index.docs@[i as int]]);
                } else {
                    assert(hits_cur =~= hits_pre);
                }
                assert(hits_cur.take(limit as int) =~= hits_pre.take(limit as int));
            }
        }
        i = i + 1;
    }
    proof {
        assert(index.docs@.subrange(0, n as int) =~= index.docs@);
    }
    out
}

} // verus!
