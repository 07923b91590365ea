//! The request shapes of the serving layer, and the pure core of each
//! route: what is computed from the store, with the transport left outside.

use vstd::prelude::*;

use crate::datetime::OrderBy;
use crate::lang::Lang;
use crate::query::{
    get_all, spec_filtered, spec_search_hits, terms_view, PostIndex,
};
use crate::schema::{FieldGetter, JSONDcument, PostField, Schema};

verus! {

/// The direction a caller asks results in; the store only ever orders
/// descending, and ascending is served by reversing.
#[derive(Debug, Clone, Copy, PartialEq, Eq, Structural)]
pub enum Order {
    Asc,
    Desc,
}

/// The lookup key of the by-slug route: the slug, and the language the
/// default `ja` stands in for.
#[derive(Debug)]
pub struct GetSlugParams {
    pub slug: String,
    pub lang: Option<String>,
}

impl GetSlugParams {
    /// The language to look under: the given one, else the default code.
    pub fn lang_or_default(&self) -> (r: String)
        ensures
            match self.lang {
                Some(l) => r@ == l@,
                None => r@ == crate::lang::spec_lang_str(Lang::Ja),
            },
    {
        match &self.lang {
            Some(l) => l.clone(),
            None => Lang::Ja.to_string(),
        }
    }
}

/// The filter of the listing routes: optional language, category and tag
/// terms, and an optional ordering.
#[derive(Debug)]
pub struct GetPostsQueryParams {
    pub lang: Option<String>,
    pub category: Option<String>,
    pub tag: Option<String>,
    pub order_by: Option<OrderBy>,
    pub order: Option<Order>,
}

/// The terms a filter names, in the fixed language-category-tag order.
pub open spec fn spec_params_terms(
    lang: Option<Seq<char>>,
    category: Option<Seq<char>>,
    tag: Option<Seq<char>>,
) -> Seq<(PostField, Seq<char>)> {
    (match lang {
        Some(l) => seq![(PostField::Lang, l)],
        None => Seq::empty(),
    }) + (match category {
        Some(c) => seq![(PostField::Category, c)],
        None => Seq::empty(),
    }) + (match tag {
        Some(t) => seq![(PostField::Tags, t)],
        None => Seq::empty(),
    })
}

impl GetPostsQueryParams {
    /// The exact-match terms this filter asks for.
    pub fn to_queries(&self) -> (r: Vec<(PostField, String)>)
        ensures
            terms_view(r@) == spec_params_terms(
                crate::frontmatter::opt_sv(self.lang),
                crate::frontmatter::opt_sv(self.category),
                crate::frontmatter::opt_sv(self.tag),
            ),
            forall|j: int|
                0 <= j < r@.len() ==> crate::schema::spec_is_text_field((#[trigger] r@[j]).0),
    {
        let mut out: Vec<(PostField, String)> = Vec::new();
        if let Some(l) = &self.lang {
            out.push((PostField::Lang, l.clone()));
        }
        if let Some(c) = &self.category {
            out.push((PostField::Category, c.clone()));
        }
        if let Some(t) = &self.tag {
            out.push((PostField::Tags, t.clone()));
        }
        proof {
            assert(terms_view(out@) =~= spec_params_terms(
                crate::frontmatter::opt_sv(self.lang),
                crate::frontmatter::opt_sv(self.category),
                crate::frontmatter::opt_sv(self.tag),
            ));
        }
        out
    }

    /// The ordering field, if one was asked for.
    pub fn order_by(&self) -> (r: Option<OrderBy>)
        ensures
            r == self.order_by,
    {
        self.order_by
    }

    /// The direction, descending when none was asked for.
    pub fn get_order(&self) -> (r: Order)
        ensures
            match self.order {
                Some(o) => r == o,
                None => r == Order::Desc,
            },
    {
        match self.order {
            Some(o) => o,
            None => Order::Desc,
        }
    }
}

/// The free-text search request: the query, and the result cap the default
/// of ten stands in for.
#[derive(Debug)]
pub struct SearchQueryParams {
    pub query: Option<String>,
    pub limit: Option<usize>,
}

impl SearchQueryParams {
    /// The result cap: the given one, else ten.
    pub fn limit_or_default(&self) -> (r: usize)
        ensures
            match self.limit {
                Some(l) => r == l,
                None => r == 10,
            },
    {
        match self.limit {
            Some(l) => l,
            None => 10,
        }
    }
}

/// The categories computed once at start and served as-is.
#[derive(Debug)]
pub struct CategoryList(pub Vec<String>);

/// The tags computed once at start and served as-is.
#[derive(Debug)]
pub struct TagList(pub Vec<String>);

/// The listing route's core: the full filtered set, ordered as asked —
/// reversed when ascending order was asked for — projected to the public
/// JSON shape.
pub fn get_posts(index: &PostIndex, schema: &Schema, params: &GetPostsQueryParams) -> (r: Vec<
    JSONDcument,
>)
    requires
        index.wf(),
    ensures
        ({
            let filtered = spec_filtered(
                index.docs@,
                spec_params_terms(
                    crate::frontmatter::opt_sv(params.lang),
                    crate::frontmatter::opt_sv(params.category),
                    crate::frontmatter::opt_sv(params.tag),
                ),
            );
            &&& r@.len() == filtered.len()
            &&& (params.order_by is None && !(params.order == Some(Order::Asc)) ==> forall|k: int|
                0 <= k < filtered.len() ==> crate::schema::spec_json_of(
                    filtered[k],
                    #[trigger] r@[k],
                ))
            &&& (params.order_by is None && params.order == Some(Order::Asc) ==> forall|k: int|
                0 <= k < filtered.len() ==> crate::schema::spec_json_of(
                    filtered[filtered.len() - 1 - k],
                    #[trigger] r@[k],
                ))
        }),
{
    let terms = params.to_queries();
    let docs = match get_all(index, &terms, params.order_by()) {
        Some(docs) => docs,
        None => Vec::new(),
    };
    let fg = FieldGetter::new(schema);
    let n = docs.len();
    let mut out: Vec<JSONDcument> = Vec::new();
    let mut i: usize = 0;
    proof {
        assert(docs@.len() == spec_filtered(index.docs@, terms_view(terms@)).len());
    }
    while i < n
        invariant
            n == docs@.len(),
            i <= n,
            out@.len() == i,
            index.wf(),
            forall|k: int| 0 <= k < docs@.len() ==> (#[trigger] docs@[k]).wf(),
            forall|k: int|
                0 <= k < i ==> crate::schema::spec_json_of(docs@[k], #[trigger] out@[k]),
        decreases n - i,
    {
        match fg.to_json(&docs[i]) {
            Ok(j) => {
                out.push(j);
            },
            Err(_) => {
                proof {
                    assert(false);
                }
            },
        }
        i = i + 1;
    }
    match params.get_order() {
        Order::Asc => {
            let ghost fwd = out@;
            let m = out.len();
            let mut rev: Vec<JSONDcument> = Vec::new();
            let mut k: usize = 0;
            while k < m
                invariant
                    out@.len() + k == m,
                    k <= m,
                    rev@.len() == k,
                    fwd.len() == m,
                    out@ == fwd.subrange(0, (m - k) as int),
                    forall|x: int| 0 <= x < k ==> #[trigger] rev@[x] == fwd[m - 1 - x],
                decreases m - k,
            {
                match out.pop() {
                    Some(j) => {
                        rev.push(j);
                        proof {
                            assert(out@ =~= fwd.subrange(0, (m - k - 1) as int));
                        }
                    },
                    None => {
                        proof {
                            assert(false);
                        }
                    },
                }
                k = k + 1;
            }
            rev
        },
        Order::Desc => out,
    }
}

/// The counting route's core: how many documents the filter matches.
pub fn count_posts(index: &PostIndex, params: &GetPostsQueryParams) -> (r: usize)
    requires
        index.wf(),
    ensures
        r == spec_filtered(
            index.docs@,
            spec_params_terms(
                crate::frontmatter::opt_sv(params.lang),
                crate::frontmatter::opt_sv(params.category),
                crate::frontmatter::opt_sv(params.tag),
            ),
        ).len(),
{
    let terms = params.to_queries();
    match get_all(index, &terms, None) {
        Some(docs) => docs.len(),
        None => 0,
    }
}

/// The search route's core: up to the cap, the documents whose title,
/// description or plain search text hold the query under ASCII case
/// folding, projected to the public JSON shape; no query lists stored
/// documents up to the cap.
pub fn search_posts(index: &PostIndex, schema: &Schema, params: &SearchQueryParams) -> (r: Vec<
    JSONDcument,
>)
    requires
        index.wf(),
    ensures
        ({
            let limit = match params.limit {
                Some(l) => l as int,
                None => 10,
            };
            match params.query {
                Some(q) => {
                    let hits = spec_search_hits(
                        index.docs@,
                        seq![PostField::Title, PostField::Description, PostField::RawText],
                        q@,
                    );
                    let shown = if limit < hits.len() {
                        limit
                    } else {
                        hits.len() as int
                    };
                    &&& r@.len() == shown
                    &&& forall|k: int|
                        0 <= k < shown ==> crate::schema::spec_json_of(
                            hits[k],
                            #[trigger] r@[k],
                        )
                },
                None => {
                    let shown = if limit < index.docs@.len() {
                        limit
                    } else {
                        index.docs@.len() as int
                    };
                    &&& r@.len() == shown
                    &&& forall|k: int|
                        0 <= k < shown ==> crate::schema::spec_json_of(
                            index.docs@[k],
                            #[trigger] r@[k],
                        )
                },
            }
        }),
{
    let limit = params.limit_or_default();
    let fg = FieldGetter::new(schema);
    let mut fields: Vec<PostField> = Vec::new();
    fields.push(PostField::Title);
    fields.push(PostField::Description);
    fields.push(PostField::RawText);
    proof {
        assert(fields@ =~= seq![PostField::Title, PostField::Description, PostField::RawText]);
    }
    let docs: Vec<crate::schema::IndexDoc> = match &params.query {
        Some(q) => crate::query::search(q.as_str(), &fields, limit, index),
        None => {
            let n = index.docs.len();
            let mut firsts: Vec<crate::schema::IndexDoc> = Vec::new();
            let mut i: usize = 0;
            while i < n
                invariant
                    n == index.docs@.len(),
                    i <= n,
                    firsts@.len() <= limit,
                    firsts@.len() == if (limit as int) < i {
                        limit as int
                    } else {
                        i as int
                    },
                    index.wf(),
                    forall|k: int| 0 <= k < firsts@.len() ==> (#[trigger] firsts@[k]).wf(),
                    forall|k: int|
                        0 <= k < firsts@.len() ==> #[trigger] firsts@[k] == index.docs@[k],
                decreases n - i,
            {
                if firsts.len() < limit {
                    firsts.push(index.docs[i].clone());
                }
                i = i + 1;
            }
            firsts
        },
    };
    let n = docs.len();
    let mut out: Vec<JSONDcument> = Vec::new();
    let mut i: usize = 0;
    proof {
        match &params.query {
            Some(q) => {
                assert(forall|k: int|
                    0 <= k < docs@.len() ==> (#[trigger] docs@[k]).wf()) by {
                    let hits = spec_search_hits(index.docs@, fields@, q@);
                    assert forall|k: int| 0 <= k < docs@.len() implies (
                    #[trigger] docs@[k]).wf() by {
                        lemma_hits_wf(index.docs@, fields@, q@);
                        let lim = if (limit as int) < hits.len() {
                            limit as int
                        } else {
                            hits.len() as int
                        };
                        assert(docs@[k] == hits.take(lim)[k]);
                        assert(hits.take(lim)[k] == hits[k]);
                    }
                }
            },
            None => {},
        }
    }
    while i < n
        invariant
            n == docs@.len(),
            i <= n,
            out@.len() == i,
            forall|k: int| 0 <= k < docs@.len() ==> (#[trigger] docs@[k]).wf(),
            forall|k: int|
                0 <= k < i ==> crate::schema::spec_json_of(docs@[k], #[trigger] out@[k]),
        decreases n - i,
    {
        match fg.to_json(&docs[i]) {
            Ok(j) => {
                out.push(j);
            },
            Err(_) => {
                proof {
                    assert(false);
                }
            },
        }
        i = i + 1;
    }
    proof {
        match &params.query {
            Some(q) => {
                let hits = spec_search_hits(index.docs@, fields@, q@);
                let shown = if (limit as int) < hits.len() {
                    limit as int
                } else {
                    hits.len() as int
                };
                assert forall|k: int| 0 <= k < shown implies crate::schema::spec_json_of(
                    hits[k],
                    #[trigger] out@[k],
                ) by {
                    assert(docs@[k] == hits.take(shown)[k]);
                    assert(hits.take(shown)[k] == hits[k]);
                }
            },
            None => {
                let shown = if (limit as int) < index.docs@.len() {
                    limit as int
                } else {
                    index.docs@.len() as int
                };
                assert(docs@.len() == shown);
                assert forall|k: int| 0 <= k < shown implies crate::schema::spec_json_of(
                    index.docs@[k],
                    #[trigger] out@[k],
                ) by {
                    assert(docs@[k] == index.docs@[k]);
                }
            },
        }
    }
    out
}

/// Every search hit is a document of a well-formed store.
proof fn lemma_hits_wf(docs: Seq<crate::schema::IndexDoc>, fields: Seq<PostField>, q: Seq<char>)
    requires
        forall|i: int| 0 <= i < docs.len() ==> crate::query::doc_ok(#[trigger] docs[i]),
    ensures
        forall|k: int|
            0 <= k < spec_search_hits(docs, fields, q).len() ==> (#[trigger] spec_search_hits(
                docs,
                fields,
                q,
            )[k]).wf(),
    decreases docs.len(),
{
    if docs.len() == 0 {
    } else {
        assert forall|i: int|
            0 <= i < docs.drop_last().len() implies crate::query::doc_ok(
            #[trigger] docs.drop_last()[i],
        ) by {
            assert(docs.drop_last()[i] == docs[i]);
        }
        lemma_hits_wf(docs.drop_last(), fields, q);
        let hp = spec_search_hits(docs.drop_last(), fields, q);
        let h = spec_search_hits(docs, fields, q);
        assert(crate::query::doc_ok(docs[docs.len() - 1]));
        assert forall|k: int| 0 <= k < h.len() implies (#[trigger] h[k]).wf() by {
            if crate::query::spec_search_match(docs.last(), fields, q) {
                assert(h == hp + seq![docs.last()]);
                if k < hp.len() {
                    assert(h[k] == hp[k]);
                } else {
                    assert(h[k] == docs.last());
                }
            } else {
                assert(h == hp + Seq::<crate::schema::IndexDoc>::empty());
                assert(h[k] == hp[k]);
            }
        }
    }
}

} // verus!